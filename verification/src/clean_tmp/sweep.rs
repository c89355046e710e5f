//! One pass over a temporary directory: collect, decide, report, and delete on request.
//!
//! The directory is read and the deletions are made by the caller; everything decided
//! about them is decided here.

use crate::clean_tmp::args;
use crate::clean_tmp::args::{Options, OptionsModel};
use crate::clean_tmp::owner;
use crate::clean_tmp::owner::{Owner, ProcessProbe};
use crate::clean_tmp::report;
use crate::clean_tmp::report::{Candidate, CandidateModel};
use crate::clean_tmp::size;
use crate::clean_tmp::size::DirSize;
use crate::path::{NativePath, PathModel};
use crate::places;
use crate::text;
use vstd::prelude::*;
use vstd::string::*;

verus! {

/// One entry of the temporary directory, as it was found.
#[derive(Debug)]
pub struct Found {
    pub path: NativePath,
    /// The last component of the path, if it is text.
    pub name: Option<String>,
    /// A directory, and no symbolic link to one.
    pub is_dir: bool,
    /// Seconds since it was modified; zero where that is unknown or in the future.
    pub age: u64,
    /// Its size. Only entries that are collected need to have been walked.
    pub size: DirSize,
}

/// What a [`Found`] stands for.
pub struct FoundModel {
    pub path: PathModel,
    pub name: Option<Seq<char>>,
    pub is_dir: bool,
    pub age: u64,
    pub size: DirSize,
}

impl View for Found {
    type V = FoundModel;

    open spec fn view(&self) -> FoundModel {
        FoundModel {
            path: self.path@,
            name: text::maybe(self.name),
            is_dir: self.is_dir,
            age: self.age,
            size: self.size,
        }
    }
}

/// What a list of entries stands for.
pub open spec fn found_models(list: Seq<Found>) -> Seq<FoundModel> {
    list.map_values(|f: Found| f@)
}

// ---------------------------------------------------------------------------
// Collecting
// ---------------------------------------------------------------------------

/// Whether an entry is collected: a real directory under a name that may be considered.
pub open spec fn collected(f: FoundModel, include_untagged: bool) -> bool {
    f.is_dir && (f.name matches Some(name) && owner::owned(name, include_untagged))
}

/// The candidate that an entry becomes for a given owner.
pub open spec fn candidate_for(f: FoundModel, owner: Owner, max_age: u64) -> CandidateModel {
    CandidateModel {
        path: f.path,
        bytes: f.size.bytes,
        size_truncated: f.size.truncated,
        age: f.age,
        verdict: owner::verdict_for(owner, f.age, max_age),
    }
}

/// The candidates in the order in which they were found, the owner of each entry given.
pub open spec fn candidates_in_order(
    found: Seq<FoundModel>,
    owners: Seq<Owner>,
    opts: OptionsModel,
) -> Seq<CandidateModel>
    decreases found.len(),
{
    if found.len() == 0 {
        Seq::empty()
    } else {
        let front = candidates_in_order(found.drop_last(), owners, opts);
        if collected(found.last(), opts.include_untagged) {
            front.push(candidate_for(found.last(), owners[found.len() - 1], opts.max_age))
        } else {
            front
        }
    }
}

/// How many of the leading candidates are at least as large as `bytes`.
pub open spec fn at_least(sorted: Seq<CandidateModel>, bytes: u64) -> nat
    decreases sorted.len(),
{
    if sorted.len() == 0 || sorted[0].bytes < bytes {
        0
    } else {
        1 + at_least(sorted.skip(1), bytes)
    }
}

/// The candidates with the largest first; those of one size stay in their order.
pub open spec fn biggest_first(cands: Seq<CandidateModel>) -> Seq<CandidateModel>
    decreases cands.len(),
{
    if cands.len() == 0 {
        Seq::empty()
    } else {
        let front = biggest_first(cands.drop_last());
        front.insert(at_least(front, cands.last().bytes) as int, cands.last())
    }
}

/// Whether an entry is collected.
pub fn is_collected(found: &Found, include_untagged: bool) -> (r: bool)
    ensures
        r == collected(found@, include_untagged),
{
    if !found.is_dir {
        return false;
    }
    match &found.name {
        Some(name) => owner::is_owned(name.as_str(), include_untagged),
        None => false,
    }
}

proof fn at_least_bound(sorted: Seq<CandidateModel>, bytes: u64)
    ensures
        at_least(sorted, bytes) <= sorted.len(),
    decreases sorted.len(),
{
    if sorted.len() > 0 {
        at_least_bound(sorted.skip(1), bytes);
    }
}

fn place_for(sorted: &Vec<Candidate>, bytes: u64) -> (at: usize)
    ensures
        at == at_least(report::models(sorted@), bytes),
        at <= sorted@.len(),
{
    let ghost all = report::models(sorted@);
    let mut at: usize = 0;
    proof {
        assert(all.skip(0) =~= all);
    }
    while at < sorted.len() && sorted[at].bytes >= bytes
        invariant
            at <= sorted@.len(),
            all == report::models(sorted@),
            at_least(all, bytes) == at + at_least(all.skip(at as int), bytes),
        decreases sorted@.len() - at,
    {
        proof {
            let now = all.skip(at as int);
            assert(now[0] == sorted@[at as int]@);
            assert(now.skip(1) =~= all.skip(at + 1));
        }
        at = at + 1;
    }
    proof {
        let now = all.skip(at as int);
        if at < sorted@.len() {
            assert(now[0] == sorted@[at as int]@);
        }
    }
    at
}

/// Sort candidates, the largest first.
pub fn sort_by_size(cands: Vec<Candidate>) -> (sorted: Vec<Candidate>)
    ensures
        report::models(sorted@) == biggest_first(report::models(cands@)),
{
    let mut sorted: Vec<Candidate> = Vec::new();
    let ghost all = report::models(cands@);
    let mut i: usize = 0;
    proof {
        assert(report::models(sorted@) =~= biggest_first(all.take(0)));
    }
    while i < cands.len()
        invariant
            i <= cands@.len(),
            all == report::models(cands@),
            report::models(sorted@) == biggest_first(all.take(i as int)),
        decreases cands@.len() - i,
    {
        let at = place_for(&sorted, cands[i].bytes);
        let copy = report::copy_of(&cands[i]);
        let ghost before = sorted@;
        sorted.insert(at, copy);
        proof {
            assert(all.take(i + 1).drop_last() =~= all.take(i as int));
            assert(all.take(i + 1).last() == cands@[i as int]@);
            assert(report::models(sorted@) =~= report::models(before).insert(at as int, copy@));
        }
        i = i + 1;
    }
    proof {
        assert(all.take(i as int) =~= all);
    }
    sorted
}

/// The candidates among the entries found, the largest first, the owner of each entry
/// given. Kept directories are among them: the report says why they stay.
pub fn collect_with_owners(found: &[Found], owners: &[Owner], opts: &Options) -> (cands: Vec<
    Candidate,
>)
    requires
        found@.len() == owners@.len(),
    ensures
        report::models(cands@) == biggest_first(
            candidates_in_order(found_models(found@), owners@, opts@),
        ),
{
    let mut cands: Vec<Candidate> = Vec::new();
    let ghost all = found_models(found@);
    let mut i: usize = 0;
    proof {
        assert(report::models(cands@) =~= candidates_in_order(all.take(0), owners@, opts@));
    }
    while i < found.len()
        invariant
            i <= found@.len(),
            found@.len() == owners@.len(),
            all == found_models(found@),
            report::models(cands@) == candidates_in_order(all.take(i as int), owners@, opts@),
        decreases found@.len() - i,
    {
        let entry = &found[i];
        proof {
            assert(all.take(i + 1).drop_last() =~= all.take(i as int));
            assert(all.take(i + 1).last() == entry@);
        }
        if is_collected(entry, opts.include_untagged) {
            let candidate = Candidate {
                path: entry.path.copied(),
                bytes: entry.size.bytes,
                size_truncated: entry.size.truncated,
                age: entry.age,
                verdict: owner::classify(owners[i], entry.age, opts.max_age),
            };
            let ghost before = cands@;
            cands.push(candidate);
            proof {
                assert(report::models(cands@) =~= report::models(before).push(candidate@));
            }
        }
        i = i + 1;
    }
    proof {
        assert(all.take(i as int) =~= all);
    }
    sort_by_size(cands)
}

/// Whether `owners` holds, for each collected entry, the owner for an answer that `probe`
/// may give.
pub open spec fn probed_owners<P: ProcessProbe>(
    found: Seq<FoundModel>,
    opts: OptionsModel,
    probe: &P,
    owners: Seq<Owner>,
) -> bool {
    &&& owners.len() == found.len()
    &&& forall|i: int|
        0 <= i < found.len() && collected(#[trigger] found[i], opts.include_untagged)
            ==> owner::probed_owner(found[i].name->0, probe, owners[i])
}

/// The candidates among the entries found, the largest first.
pub fn collect<P: ProcessProbe>(found: &[Found], opts: &Options, probe: &P) -> (cands: Vec<
    Candidate,
>)
    ensures
        exists|owners: Seq<Owner>|
            {
                &&& #[trigger] probed_owners(found_models(found@), opts@, probe, owners)
                &&& report::models(cands@) == biggest_first(
                    candidates_in_order(found_models(found@), owners, opts@),
                )
            },
        may_be_collected(found_models(found@), opts@, probe, report::models(cands@)),
{
    let mut owners: Vec<Owner> = Vec::new();
    let ghost all = found_models(found@);
    let mut i: usize = 0;
    while i < found.len()
        invariant
            i <= found@.len(),
            owners@.len() == i,
            all == found_models(found@),
            forall|j: int|
                0 <= j < i && collected(#[trigger] all[j], opts.include_untagged)
                    ==> owner::probed_owner(all[j].name->0, probe, owners@[j]),
        decreases found@.len() - i,
    {
        let entry = &found[i];
        let mut who = Owner::Unknown;
        if is_collected(entry, opts.include_untagged) {
            match &entry.name {
                Some(name) => {
                    who = owner::owner_of(name.as_str(), probe);
                },
                None => {},
            }
        }
        owners.push(who);
        proof {
            assert(all[i as int] == entry@);
        }
        i = i + 1;
    }
    proof {
        assert(probed_owners(all, opts@, probe, owners@));
    }
    collect_with_owners(found, owners.as_slice(), opts)
}

// ---------------------------------------------------------------------------
// Deciding and reporting
// ---------------------------------------------------------------------------

/// What one pass is going to do.
#[derive(Debug)]
pub struct Plan {
    pub report: String,
    /// The directories to delete now. Empty in a dry run.
    pub doomed: Vec<Candidate>,
}

/// What one pass over a temporary directory did.
#[derive(Debug)]
pub struct Sweep {
    pub report: String,
    pub removed: usize,
    pub freed: u64,
    /// `freed` is a lower bound.
    pub freed_truncated: bool,
    /// One message for each directory that could not be removed.
    pub failures: Vec<String>,
}

/// The candidates that go.
pub open spec fn to_reap(cands: Seq<CandidateModel>) -> Seq<CandidateModel> {
    cands.filter(|c: CandidateModel| c.verdict.reap)
}

/// The candidates that stay.
pub open spec fn to_keep(cands: Seq<CandidateModel>) -> Seq<CandidateModel> {
    cands.filter(|c: CandidateModel| !c.verdict.reap)
}

/// What a dry run with something to delete ends with.
pub open spec fn dry_run_note() -> Seq<Seq<char>> {
    seq![""@, "dry run — nothing removed. Re-run with --apply to delete."@]
}

/// The lines that a pass reports before anything is deleted.
pub open spec fn sweep_lines(
    root: Seq<char>,
    cands: Seq<CandidateModel>,
    opts: OptionsModel,
) -> Seq<Seq<char>> {
    report::report_lines(root, to_reap(cands), to_keep(cands), opts.max_age) + (if to_reap(
        cands,
    ).len() > 0 && !opts.apply {
        dry_run_note()
    } else {
        Seq::empty()
    })
}

/// The candidates that are to be deleted: those that go, and only on request.
pub open spec fn doomed(cands: Seq<CandidateModel>, opts: OptionsModel) -> Seq<CandidateModel> {
    if opts.apply {
        to_reap(cands)
    } else {
        Seq::empty()
    }
}

proof fn dry_run_lines(lines: Seq<Seq<char>>)
    ensures
        text::unlines(lines + dry_run_note()) == text::unlines(lines) + text::unlines(seq![""@])
            + text::unlines(
            seq!["dry run — nothing removed. Re-run with --apply to delete."@],
        ),
        report::all_control_free(dry_run_note()),
{
    let dry = "dry run — nothing removed. Re-run with --apply to delete."@;
    text::unlines_append(seq![""@], seq![dry]);
    assert(seq![""@] + seq![dry] =~= dry_run_note());
    text::unlines_append(lines, dry_run_note());
    assert(text::unlines(lines) + (text::unlines(seq![""@]) + text::unlines(seq![dry]))
        =~= text::unlines(lines) + text::unlines(seq![""@]) + text::unlines(seq![dry]));
    reveal_strlit("");
    reveal_strlit("dry run — nothing removed. Re-run with --apply to delete.");
    assert(text::control_free(""@));
    assert(text::control_free(dry));
}

fn select(cands: &Vec<Candidate>, reap: bool) -> (picked: Vec<Candidate>)
    ensures
        reap ==> report::models(picked@) == to_reap(report::models(cands@)),
        !reap ==> report::models(picked@) == to_keep(report::models(cands@)),
{
    let mut picked: Vec<Candidate> = Vec::new();
    let ghost all = report::models(cands@);
    let ghost goes = |c: CandidateModel| c.verdict.reap;
    let ghost stays = |c: CandidateModel| !c.verdict.reap;
    let mut i: usize = 0;
    proof {
        reveal(Seq::filter);
        assert(report::models(picked@) =~= all.take(0).filter(goes));
        assert(report::models(picked@) =~= all.take(0).filter(stays));
    }
    while i < cands.len()
        invariant
            i <= cands@.len(),
            all == report::models(cands@),
            goes == (|c: CandidateModel| c.verdict.reap),
            stays == (|c: CandidateModel| !c.verdict.reap),
            reap ==> report::models(picked@) == all.take(i as int).filter(goes),
            !reap ==> report::models(picked@) == all.take(i as int).filter(stays),
        decreases cands@.len() - i,
    {
        proof {
            reveal(Seq::filter);
            assert(all.take(i + 1).drop_last() =~= all.take(i as int));
            assert(all.take(i + 1).last() == cands@[i as int]@);
        }
        if cands[i].verdict.reap == reap {
            let ghost before = picked@;
            let copy = report::copy_of(&cands[i]);
            picked.push(copy);
            proof {
                assert(report::models(picked@) =~= report::models(before).push(copy@));
            }
        }
        i = i + 1;
    }
    proof {
        assert(all.take(i as int) =~= all);
    }
    picked
}

/// Decide what happens to the candidates, and report it. In a dry run nothing is doomed.
pub fn sweep(temp_root: &str, cands: Vec<Candidate>, opts: &Options) -> (plan: Plan)
    ensures
        plan.report@ == text::unlines(sweep_lines(temp_root@, report::models(cands@), opts@)),
        report::models(plan.doomed@) == doomed(report::models(cands@), opts@),
        report::paths_are_escaped(to_reap(report::models(cands@))),
        text::control_free(temp_root@) ==> report::all_control_free(
            sweep_lines(temp_root@, report::models(cands@), opts@),
        ),
        text::control_free(temp_root@) ==> text::lines(plan.report@) == sweep_lines(
            temp_root@,
            report::models(cands@),
            opts@,
        ),
{
    let ghost cm = report::models(cands@);
    let reap = select(&cands, true);
    let keep = select(&cands, false);
    let mut out = report::report(temp_root, reap.as_slice(), keep.as_slice(), opts.max_age);
    let ghost lines = report::report_lines(temp_root@, to_reap(cm), to_keep(cm), opts.max_age);
    proof {
        assert(report::models(reap@).len() == reap@.len());
    }
    if reap.len() > 0 && !opts.apply {
        text::push_line(&mut out, "");
        text::push_line(&mut out, "dry run — nothing removed. Re-run with --apply to delete.");
        proof {
            dry_run_lines(lines);
            assert(sweep_lines(temp_root@, cm, opts@) == lines + dry_run_note());
            if report::all_control_free(lines) {
                report::all_control_free_append(lines, dry_run_note());
            }
        }
    } else {
        proof {
            assert(sweep_lines(temp_root@, cm, opts@) =~= lines);
        }
    }
    proof {
        if text::control_free(temp_root@) {
            report::printable_lines_read_back(sweep_lines(temp_root@, cm, opts@));
        }
    }
    if opts.apply {
        Plan { report: out, doomed: reap }
    } else {
        let none: Vec<Candidate> = Vec::new();
        proof {
            assert(report::models(none@) =~= Seq::<CandidateModel>::empty());
        }
        Plan { report: out, doomed: none }
    }
}

// ---------------------------------------------------------------------------
// Settling
// ---------------------------------------------------------------------------

/// The directories whose deletion succeeded.
pub open spec fn gone(doomed: Seq<CandidateModel>, outcomes: Seq<Result<(), String>>) -> Seq<
    CandidateModel,
>
    decreases doomed.len(),
{
    if doomed.len() == 0 {
        Seq::empty()
    } else {
        let front = gone(doomed.drop_last(), outcomes);
        if outcomes[doomed.len() - 1] is Ok {
            front.push(doomed.last())
        } else {
            front
        }
    }
}

/// The message about a directory that could not be deleted.
pub open spec fn failure_text(c: CandidateModel, error: Seq<char>) -> Seq<char> {
    "  failed to remove "@ + c.path.shown() + ": "@ + error
}

/// The messages about the directories that could not be deleted.
pub open spec fn failure_texts(
    doomed: Seq<CandidateModel>,
    outcomes: Seq<Result<(), String>>,
) -> Seq<Seq<char>>
    decreases doomed.len(),
{
    if doomed.len() == 0 {
        Seq::empty()
    } else {
        let front = failure_texts(doomed.drop_last(), outcomes);
        match outcomes[doomed.len() - 1] {
            Ok(_) => front,
            Err(error) => front.push(failure_text(doomed.last(), error@)),
        }
    }
}

/// Add up what the deletions of a plan came to, the outcome of each given.
pub fn settle(plan: Plan, outcomes: &[Result<(), String>]) -> (done: Sweep)
    requires
        outcomes@.len() == plan.doomed@.len(),
    ensures
        ({
            let removed = gone(report::models(plan.doomed@), outcomes@);
            &&& done.report@ == plan.report@
            &&& done.removed == removed.len()
            &&& done.freed == size::capped(size::total(report::sizes(removed)))
            &&& done.freed_truncated == report::any_truncated(removed)
            &&& text::texts(done.failures@) == failure_texts(
                report::models(plan.doomed@),
                outcomes@,
            )
        }),
{
    let mut removed: usize = 0;
    let mut freed: u64 = 0;
    let mut freed_truncated: bool = false;
    let mut failures: Vec<String> = Vec::new();
    let ghost all = report::models(plan.doomed@);
    let mut i: usize = 0;
    proof {
        assert(text::texts(failures@) =~= failure_texts(all.take(0), outcomes@));
    }
    while i < plan.doomed.len()
        invariant
            i <= plan.doomed@.len() == outcomes@.len(),
            all == report::models(plan.doomed@),
            removed == gone(all.take(i as int), outcomes@).len(),
            removed <= i,
            freed == size::capped(size::total(report::sizes(gone(all.take(i as int), outcomes@)))),
            freed_truncated == report::any_truncated(gone(all.take(i as int), outcomes@)),
            text::texts(failures@) == failure_texts(all.take(i as int), outcomes@),
        decreases plan.doomed@.len() - i,
    {
        let c = &plan.doomed[i];
        let ghost was = gone(all.take(i as int), outcomes@);
        let ghost failed = failures@;
        proof {
            assert(all.take(i + 1).drop_last() =~= all.take(i as int));
            assert(all.take(i + 1).last() == c@);
        }
        match &outcomes[i] {
            Ok(_) => {
                proof {
                    let now = was.push(c@);
                    assert(report::sizes(now).drop_last() =~= report::sizes(was));
                    assert(report::sizes(now).last() == c.bytes);
                    if report::any_truncated(was) {
                        let j = choose|j: int|
                            0 <= j < was.len() && (#[trigger] was[j]).size_truncated;
                        assert(now[j].size_truncated);
                    }
                    assert(now[was.len() as int] == c@);
                    if report::any_truncated(now) {
                        let j = choose|j: int|
                            0 <= j < now.len() && (#[trigger] now[j]).size_truncated;
                        if j < was.len() {
                            assert(was[j].size_truncated);
                        }
                    }
                }
                removed = removed + 1;
                freed = freed.saturating_add(c.bytes);
                freed_truncated = freed_truncated || c.size_truncated;
            },
            Err(error) => {
                let mut msg = "  failed to remove ".to_owned();
                msg.append(c.path.shown().as_str());
                msg.append(": ");
                msg.append(error.as_str());
                failures.push(msg);
                proof {
                    assert(text::texts(failures@) =~= text::texts(failed).push(msg@));
                }
            },
        }
        i = i + 1;
    }
    proof {
        assert(all.take(i as int) =~= all);
    }
    Sweep { report: plan.report, removed, freed, freed_truncated, failures }
}

// ---------------------------------------------------------------------------
// The command
// ---------------------------------------------------------------------------

/// What the command prints, and its exit code.
#[derive(Debug)]
pub struct RunOutput {
    pub stdout: String,
    pub stderr: Vec<String>,
    pub exit_code: u8,
}

/// What a [`RunOutput`] stands for.
#[verifier::ext_equal]
pub struct RunOutputModel {
    pub stdout: Seq<char>,
    pub stderr: Seq<Seq<char>>,
    pub exit_code: u8,
}

impl View for RunOutput {
    type V = RunOutputModel;

    open spec fn view(&self) -> RunOutputModel {
        RunOutputModel {
            stdout: self.stdout@,
            stderr: text::texts(self.stderr@),
            exit_code: self.exit_code,
        }
    }
}

/// How the command begins: with options to sweep by, or already at its end.
pub open spec fn beginning(args: Seq<Seq<char>>) -> Result<OptionsModel, RunOutputModel> {
    match args::parsed(args, args::default_options()) {
        Ok(Some(opts)) => Ok(opts),
        Ok(None) => Err(
            RunOutputModel { stdout: args::USAGE@, stderr: Seq::empty(), exit_code: 0 },
        ),
        Err(msg) => Err(
            RunOutputModel {
                stdout: args::USAGE@,
                stderr: seq!["xtask clean-e2e-tmp: "@ + msg],
                exit_code: 2,
            },
        ),
    }
}

/// The end of the command after a sweep.
pub open spec fn conclusion(
    report: Seq<char>,
    removed: nat,
    freed: u64,
    freed_truncated: bool,
    failures: Seq<Seq<char>>,
) -> RunOutputModel {
    RunOutputModel {
        stdout: if removed > 0 || failures.len() > 0 {
            report + text::unlines(
                seq![
                    "removed "@ + text::decimal(removed) + " dir(s), freed "@ + size::size_text(
                        freed,
                        freed_truncated,
                    ),
                ],
            )
        } else {
            report
        },
        stderr: if failures.len() > 0 {
            failures.push(text::decimal(failures.len()) + " dir(s) could not be removed"@)
        } else {
            failures
        },
        exit_code: if failures.len() > 0 {
            1
        } else {
            0
        },
    }
}

fn one_line(line: String) -> (lines: Vec<String>)
    ensures
        text::texts(lines@) == seq![line@],
{
    let mut lines: Vec<String> = Vec::new();
    lines.push(line);
    proof {
        assert(text::texts(lines@) =~= seq![line@]);
    }
    lines
}

/// Begin the command: read its arguments, and end it at once for the help text or a
/// complaint.
pub fn run_begin(arguments: &[String]) -> (r: Result<Options, RunOutput>)
    ensures
        match r {
            Ok(opts) => beginning(text::texts(arguments@)) == Ok::<OptionsModel, RunOutputModel>(
                opts@,
            ),
            Err(output) => beginning(text::texts(arguments@)) == Err::<
                OptionsModel,
                RunOutputModel,
            >(output@),
        },
{
    match args::parse_args(arguments) {
        Ok(Some(opts)) => Ok(opts),
        Ok(None) => {
            let none: Vec<String> = Vec::new();
            proof {
                assert(text::texts(none@) =~= Seq::<Seq<char>>::empty());
            }
            Err(RunOutput { stdout: args::usage(), stderr: none, exit_code: 0 })
        },
        Err(msg) => {
            let mut line = "xtask clean-e2e-tmp: ".to_owned();
            line.append(msg.as_str());
            Err(RunOutput { stdout: args::usage(), stderr: one_line(line), exit_code: 2 })
        },
    }
}

/// End the command because the temporary directory could not be read.
pub fn run_unreadable(temp_root: &str, error: &str) -> (output: RunOutput)
    ensures
        output@ == (RunOutputModel {
            stdout: Seq::empty(),
            stderr: seq!["xtask clean-e2e-tmp: cannot read "@ + temp_root@ + ": "@ + error@],
            exit_code: 1,
        }),
{
    let mut line = "xtask clean-e2e-tmp: cannot read ".to_owned();
    line.append(temp_root);
    line.append(": ");
    line.append(error);
    RunOutput { stdout: String::new(), stderr: one_line(line), exit_code: 1 }
}

/// End the command after a sweep. It fails exactly when a directory could not be removed.
pub fn run_conclude(done: Sweep) -> (output: RunOutput)
    ensures
        output@ == conclusion(
            done.report@,
            done.removed as nat,
            done.freed,
            done.freed_truncated,
            text::texts(done.failures@),
        ),
{
    let mut stdout = done.report;
    let mut stderr = done.failures;
    let failed: usize = stderr.len();
    proof {
        assert(text::texts(stderr@).len() == stderr@.len());
    }
    if done.removed > 0 || failed > 0 {
        let mut line = "removed ".to_owned();
        line.append(text::decimal_text(done.removed as u64).as_str());
        line.append(" dir(s), freed ");
        line.append(size::human_size(done.freed, done.freed_truncated).as_str());
        text::push_line(&mut stdout, line.as_str());
    }
    if failed > 0 {
        let mut line = text::decimal_text(failed as u64);
        line.append(" dir(s) could not be removed");
        let ghost before = stderr@;
        stderr.push(line);
        proof {
            assert(text::texts(stderr@) =~= text::texts(before).push(line@));
        }
        RunOutput { stdout, stderr, exit_code: 1 }
    } else {
        RunOutput { stdout, stderr, exit_code: 0 }
    }
}

/// What the outputs for several directories come to: everything that each of them prints, in
/// order, and the worst of their exit codes.
pub open spec fn gathered(outputs: Seq<RunOutputModel>) -> RunOutputModel
    decreases outputs.len(),
{
    if outputs.len() == 0 {
        RunOutputModel { stdout: Seq::empty(), stderr: Seq::empty(), exit_code: 0 }
    } else {
        let front = gathered(outputs.drop_last());
        let last = outputs.last();
        RunOutputModel {
            stdout: front.stdout + last.stdout,
            stderr: front.stderr + last.stderr,
            exit_code: if last.exit_code > front.exit_code {
                last.exit_code
            } else {
                front.exit_code
            },
        }
    }
}

/// The end of the command after every directory was swept, with the note on a line of its own
/// in front.
pub open spec fn whole_output(
    note: Option<Seq<char>>,
    outputs: Seq<RunOutputModel>,
) -> RunOutputModel {
    match note {
        Some(line) => RunOutputModel {
            stdout: text::unlines(seq![line]) + gathered(outputs).stdout,
            ..gathered(outputs)
        },
        None => gathered(outputs),
    }
}

/// What a list of outputs stands for.
pub open spec fn output_models(outputs: Seq<RunOutput>) -> Seq<RunOutputModel> {
    outputs.map_values(|o: RunOutput| o@)
}

/// End the command after every directory was swept.
pub fn run_gather(note: Option<String>, outputs: &[RunOutput]) -> (output: RunOutput)
    ensures
        output@ == whole_output(text::maybe(note), output_models(outputs@)),
{
    let ghost all = output_models(outputs@);
    let mut stdout = String::new();
    if let Some(line) = &note {
        text::push_line(&mut stdout, line.as_str());
    }
    let ghost head = stdout@;
    let mut stderr: Vec<String> = Vec::new();
    let mut exit_code: u8 = 0;
    let mut i: usize = 0;
    proof {
        assert(head =~= (match note {
            Some(line) => text::unlines(seq![line@]),
            None => Seq::empty(),
        }));
        assert(stdout@ =~= head + gathered(all.take(0)).stdout);
        assert(text::texts(stderr@) =~= gathered(all.take(0)).stderr);
    }
    while i < outputs.len()
        invariant
            i <= outputs@.len(),
            all == output_models(outputs@),
            stdout@ == head + gathered(all.take(i as int)).stdout,
            text::texts(stderr@) == gathered(all.take(i as int)).stderr,
            exit_code == gathered(all.take(i as int)).exit_code,
        decreases outputs@.len() - i,
    {
        let one = &outputs[i];
        proof {
            assert(all.take(i + 1).drop_last() =~= all.take(i as int));
            assert(all.take(i + 1).last() == one@);
        }
        stdout.append(one.stdout.as_str());
        let ghost before = text::texts(stderr@);
        let mut j: usize = 0;
        proof {
            assert(text::texts(one.stderr@).take(0) =~= Seq::<Seq<char>>::empty());
        }
        while j < one.stderr.len()
            invariant
                j <= one.stderr@.len(),
                text::texts(stderr@) == before + text::texts(one.stderr@).take(j as int),
            decreases one.stderr@.len() - j,
        {
            let line = one.stderr[j].as_str().to_owned();
            let ghost was = stderr@;
            stderr.push(line);
            proof {
                assert(text::texts(stderr@) =~= text::texts(was).push(line@));
                assert(text::texts(one.stderr@).take(j + 1) =~= text::texts(one.stderr@).take(
                    j as int,
                ).push(line@));
            }
            j = j + 1;
        }
        proof {
            assert(text::texts(one.stderr@).take(j as int) =~= text::texts(one.stderr@));
            let front = gathered(all.take(i as int));
            assert(stdout@ =~= head + (front.stdout + one.stdout@));
        }
        if one.exit_code > exit_code {
            exit_code = one.exit_code;
        }
        i = i + 1;
    }
    proof {
        assert(all.take(i as int) =~= all);
    }
    let output = RunOutput { stdout, stderr, exit_code };
    proof {
        assert(output@ =~= whole_output(text::maybe(note), all));
    }
    output
}

// ---------------------------------------------------------------------------
// Laws
// ---------------------------------------------------------------------------

/// Only a directory that was decided to go is ever deleted, and only on request.
pub proof fn only_the_reaped_are_doomed(cands: Seq<CandidateModel>, opts: OptionsModel, i: int)
    requires
        0 <= i < doomed(cands, opts).len(),
    ensures
        opts.apply,
        doomed(cands, opts)[i].verdict.reap,
        cands.contains(doomed(cands, opts)[i]),
{
    let pred = |c: CandidateModel| c.verdict.reap;
    cands.lemma_filter_pred(pred, i);
    filtered_comes_from(cands, pred, i);
}

proof fn filtered_comes_from(
    cands: Seq<CandidateModel>,
    pred: spec_fn(CandidateModel) -> bool,
    i: int,
)
    requires
        0 <= i < cands.filter(pred).len(),
    ensures
        cands.contains(cands.filter(pred)[i]),
    decreases cands.len(),
{
    reveal(Seq::filter);
    let front = cands.drop_last();
    if i < front.filter(pred).len() {
        filtered_comes_from(front, pred, i);
        let x = front.filter(pred)[i];
        let k = choose|k: int| 0 <= k < front.len() && front[k] == x;
        assert(cands[k] == x);
        assert(cands.filter(pred)[i] == x);
    } else {
        assert(cands.filter(pred)[i] == cands.last());
        assert(cands[cands.len() - 1] == cands.last());
    }
}

/// Every candidate comes from a collected entry of that path, decided by the owner of that
/// entry and, where the owner is unknown, its age.
pub proof fn candidates_come_from_entries(
    found: Seq<FoundModel>,
    owners: Seq<Owner>,
    opts: OptionsModel,
    c: CandidateModel,
)
    requires
        candidates_in_order(found, owners, opts).contains(c),
    ensures
        exists|i: int|
            0 <= i < found.len() && collected(#[trigger] found[i], opts.include_untagged) && c
                == candidate_for(found[i], owners[i], opts.max_age),
    decreases found.len(),
{
    let all = candidates_in_order(found, owners, opts);
    let k = choose|k: int| 0 <= k < all.len() && all[k] == c;
    if found.len() > 0 {
        let front = candidates_in_order(found.drop_last(), owners, opts);
        if k < front.len() {
            assert(front[k] == c);
            candidates_come_from_entries(found.drop_last(), owners, opts, c);
            let i = choose|i: int|
                0 <= i < found.drop_last().len() && collected(
                    #[trigger] found.drop_last()[i],
                    opts.include_untagged,
                ) && c == candidate_for(found.drop_last()[i], owners[i], opts.max_age);
            assert(found[i] == found.drop_last()[i]);
        } else {
            assert(collected(found[found.len() - 1], opts.include_untagged));
        }
    }
}

/// The candidates of one size.
pub open spec fn of_size(cands: Seq<CandidateModel>, bytes: u64) -> Seq<CandidateModel> {
    cands.filter(|c: CandidateModel| c.bytes == bytes)
}

/// Sorting by size neither loses a candidate nor makes one up, puts no smaller one in front
/// of a larger one, and keeps those of one size in their order.
pub proof fn biggest_first_sorts(cands: Seq<CandidateModel>)
    ensures
        biggest_first(cands).to_multiset() == cands.to_multiset(),
        forall|i: int, j: int|
            0 <= i <= j < biggest_first(cands).len() ==> biggest_first(cands)[i].bytes
                >= biggest_first(cands)[j].bytes,
        forall|bytes: u64| #[trigger]
            of_size(biggest_first(cands), bytes) == of_size(cands, bytes),
    decreases cands.len(),
{
    reveal(Seq::filter);
    if cands.len() == 0 {
        assert(biggest_first(cands) =~= cands);
    } else {
        let front = biggest_first(cands.drop_last());
        let x = cands.last();
        let at = at_least(front, x.bytes) as int;
        biggest_first_sorts(cands.drop_last());
        at_least_bound(front, x.bytes);
        at_least_splits(front, x.bytes);
        vstd::seq_lib::to_multiset_insert(front, at, x);
        cands.drop_last().to_multiset_ensures();
        assert(cands =~= cands.drop_last().push(x));
        assert forall|bytes: u64| #[trigger]
            of_size(biggest_first(cands), bytes) == of_size(cands, bytes) by {
            assert(of_size(front, bytes) == of_size(cands.drop_last(), bytes));
            let pred = |c: CandidateModel| c.bytes == bytes;
            let head = front.take(at);
            let tail = front.skip(at);
            assert(front =~= head + tail);
            assert(biggest_first(cands) =~= head + (seq![x] + tail));
            Seq::filter_distributes_over_add(head, tail, pred);
            Seq::filter_distributes_over_add(head, seq![x] + tail, pred);
            Seq::filter_distributes_over_add(seq![x], tail, pred);
            Seq::filter_distributes_over_add(cands.drop_last(), seq![x], pred);
            assert(cands =~= cands.drop_last() + seq![x]);
            if pred(x) {
                assert forall|k: int| 0 <= k < tail.len() implies !pred(#[trigger] tail[k]) by {
                    assert(tail[k] == front[at + k]);
                }
                tail.lemma_all_neg_filter_empty(pred);
            } else {
                assert(seq![x].drop_last() =~= Seq::<CandidateModel>::empty());
            }
            assert(seq![x].filter(pred) + tail.filter(pred) =~= (if pred(x) {
                seq![x].filter(pred)
            } else {
                tail.filter(pred)
            }));
        }
    }
}

proof fn at_least_splits(sorted: Seq<CandidateModel>, bytes: u64)
    requires
        forall|i: int, j: int| 0 <= i <= j < sorted.len() ==> sorted[i].bytes >= sorted[j].bytes,
    ensures
        at_least(sorted, bytes) <= sorted.len(),
        forall|i: int| 0 <= i < at_least(sorted, bytes) ==> sorted[i].bytes >= bytes,
        forall|i: int| at_least(sorted, bytes) <= i < sorted.len() ==> sorted[i].bytes < bytes,
    decreases sorted.len(),
{
    if sorted.len() > 0 && sorted[0].bytes >= bytes {
        let rest = sorted.skip(1);
        at_least_splits(rest, bytes);
        assert forall|i: int| 0 <= i < at_least(sorted, bytes) implies sorted[i].bytes >= bytes by {
            if i > 0 {
                assert(sorted[i] == rest[i - 1]);
            }
        }
        assert forall|i: int|
            at_least(sorted, bytes) <= i < sorted.len() implies sorted[i].bytes < bytes by {
            assert(sorted[i] == rest[i - 1]);
        }
    }
}

/// The directory of a live process is never deleted, whatever its timestamps, its size and
/// the options.
pub proof fn a_live_owner_is_never_doomed(
    found: Seq<FoundModel>,
    owners: Seq<Owner>,
    opts: OptionsModel,
    path: PathModel,
)
    requires
        forall|i: int|
            0 <= i < found.len() && #[trigger] found[i].path == path ==> owners[i] == Owner::Live,
    ensures
        forall|k: int|
            0 <= k < doomed(biggest_first(candidates_in_order(found, owners, opts)), opts).len()
                ==> (#[trigger] doomed(
                biggest_first(candidates_in_order(found, owners, opts)),
                opts,
            )[k]).path != path,
{
    let in_order = candidates_in_order(found, owners, opts);
    let sorted = biggest_first(in_order);
    assert forall|k: int| 0 <= k < doomed(sorted, opts).len() implies (#[trigger] doomed(
        sorted,
        opts,
    )[k]).path != path by {
        let c = doomed(sorted, opts)[k];
        only_the_reaped_are_doomed(sorted, opts, k);
        biggest_first_sorts(in_order);
        same_elements(sorted, in_order, c);
        candidates_come_from_entries(found, owners, opts, c);
        let i = choose|i: int|
            0 <= i < found.len() && collected(#[trigger] found[i], opts.include_untagged) && c
                == candidate_for(found[i], owners[i], opts.max_age);
        assert(found[i].path == c.path);
    }
}

proof fn same_elements(a: Seq<CandidateModel>, b: Seq<CandidateModel>, c: CandidateModel)
    requires
        a.to_multiset() == b.to_multiset(),
        a.contains(c),
    ensures
        b.contains(c),
{
    a.to_multiset_ensures();
    b.to_multiset_ensures();
    assert(a.to_multiset().count(c) > 0);
    assert(b.to_multiset().count(c) > 0);
}

/// With `--apply`, the directory of a dead process is deleted, whatever its age.
pub proof fn a_dead_owner_is_always_doomed(
    found: Seq<FoundModel>,
    owners: Seq<Owner>,
    opts: OptionsModel,
    i: int,
)
    requires
        0 <= i < found.len(),
        collected(found[i], opts.include_untagged),
        owners[i] == Owner::Dead,
        opts.apply,
    ensures
        doomed(biggest_first(candidates_in_order(found, owners, opts)), opts).contains(
            candidate_for(found[i], owners[i], opts.max_age),
        ),
{
    let in_order = candidates_in_order(found, owners, opts);
    let sorted = biggest_first(in_order);
    let c = candidate_for(found[i], owners[i], opts.max_age);
    entries_become_candidates(found, owners, opts, i);
    biggest_first_sorts(in_order);
    same_elements(in_order, sorted, c);
    let k = choose|k: int| 0 <= k < sorted.len() && sorted[k] == c;
    sorted.lemma_filter_contains(|c: CandidateModel| c.verdict.reap, k);
}

/// Every collected entry is decided on: none is dropped before the report can explain it.
pub proof fn entries_become_candidates(
    found: Seq<FoundModel>,
    owners: Seq<Owner>,
    opts: OptionsModel,
    i: int,
)
    requires
        0 <= i < found.len(),
        collected(found[i], opts.include_untagged),
    ensures
        candidates_in_order(found, owners, opts).contains(
            candidate_for(found[i], owners[i], opts.max_age),
        ),
    decreases found.len(),
{
    let all = candidates_in_order(found, owners, opts);
    let front = candidates_in_order(found.drop_last(), owners, opts);
    let c = candidate_for(found[i], owners[i], opts.max_age);
    if i < found.len() - 1 {
        assert(found.drop_last()[i] == found[i]);
        entries_become_candidates(found.drop_last(), owners, opts, i);
        let k = choose|k: int| 0 <= k < front.len() && front[k] == c;
        assert(all[k] == c);
    } else {
        assert(all[front.len() as int] == c);
    }
}

/// The size of a tree takes no part in the decision on it.
pub proof fn sizes_decide_nothing(f: FoundModel, g: FoundModel, owner: Owner, max_age: u64)
    requires
        f.age == g.age,
    ensures
        candidate_for(f, owner, max_age).verdict == candidate_for(g, owner, max_age).verdict,
{
}

/// Every candidate either goes or stays: none is lost, and none is counted twice.
pub proof fn every_candidate_goes_or_stays(cands: Seq<CandidateModel>)
    ensures
        to_reap(cands).to_multiset().add(to_keep(cands).to_multiset()) == cands.to_multiset(),
        to_reap(cands).len() + to_keep(cands).len() == cands.len(),
    decreases cands.len(),
{
    reveal(Seq::filter);
    if cands.len() == 0 {
        assert(to_reap(cands) =~= cands);
        assert(to_keep(cands) =~= cands);
        cands.to_multiset_ensures();
        assert(cands.to_multiset().add(cands.to_multiset()) =~= cands.to_multiset());
    } else {
        let front = cands.drop_last();
        let x = cands.last();
        every_candidate_goes_or_stays(front);
        assert(cands =~= front.push(x));
        front.to_multiset_ensures();
        to_reap(front).to_multiset_ensures();
        to_keep(front).to_multiset_ensures();
        if x.verdict.reap {
            assert(to_reap(cands) =~= to_reap(front).push(x));
            assert(to_keep(cands) =~= to_keep(front));
        } else {
            assert(to_reap(cands) =~= to_reap(front));
            assert(to_keep(cands) =~= to_keep(front).push(x));
        }
        assert(to_reap(cands).to_multiset().add(to_keep(cands).to_multiset())
            =~= cands.to_multiset());
    }
}

/// The command fails exactly when the sweep of one of its directories does, and a single
/// directory without a note is reported as it is.
pub proof fn one_failure_fails_the_command(
    note: Option<Seq<char>>,
    outputs: Seq<RunOutputModel>,
    one: RunOutputModel,
)
    ensures
        whole_output(note, outputs).exit_code == 0 <==> forall|i: int|
            0 <= i < outputs.len() ==> (#[trigger] outputs[i]).exit_code == 0,
        whole_output(None, seq![one]) == one,
    decreases outputs.len(),
{
    if outputs.len() > 0 {
        let front = outputs.drop_last();
        one_failure_fails_the_command(note, front, one);
        assert(outputs[outputs.len() - 1] == outputs.last());
        assert(forall|i: int| 0 <= i < front.len() ==> #[trigger] outputs[i] == front[i]);
        if whole_output(note, front).exit_code != 0 {
            let i = choose|i: int| 0 <= i < front.len() && (#[trigger] front[i]).exit_code != 0;
            assert(outputs[i].exit_code != 0);
        }
    }
    reveal_with_fuel(gathered, 2);
    assert(seq![one].drop_last() =~= Seq::<RunOutputModel>::empty());
    assert(gathered(seq![one]) =~= one);
}

/// What is collected is a directory under a name that may be considered: no link, no file, and
/// nothing without a name.
pub proof fn only_directories_of_the_harness_are_collected(f: FoundModel, include_untagged: bool)
    ensures
        !f.is_dir || f.name is None ==> !collected(f, include_untagged),
        f.is_dir && f.name is Some ==> collected(f, include_untagged) == owner::owned(
            f.name->0,
            include_untagged,
        ),
{
}

/// Every entry that is collected becomes one candidate, in the order of the entries, and no
/// other entry becomes one. The candidate has the path, the size and the age of its entry, and
/// the decision for its owner and its age.
pub proof fn every_collected_entry_becomes_one_candidate(
    found: Seq<FoundModel>,
    owners: Seq<Owner>,
    opts: OptionsModel,
) -> (at: Seq<int>)
    ensures
        places::are_the_places(
            at,
            found.len(),
            |i: int| collected(found[i], opts.include_untagged),
        ),
        candidates_in_order(found, owners, opts).len() == at.len(),
        forall|k: int|
            0 <= k < at.len() ==> {
                let c = #[trigger] candidates_in_order(found, owners, opts)[k];
                let f = found[at[k]];
                &&& c.path == f.path
                &&& c.bytes == f.size.bytes
                &&& c.size_truncated == f.size.truncated
                &&& c.age == f.age
                &&& c.verdict == owner::verdict_for(owners[at[k]], f.age, opts.max_age)
            },
    decreases found.len(),
{
    let wanted = |i: int| collected(found[i], opts.include_untagged);
    if found.len() == 0 {
        Seq::empty()
    } else {
        let front = found.drop_last();
        let n = (found.len() - 1) as nat;
        let before = |i: int| collected(front[i], opts.include_untagged);
        let at = every_collected_entry_becomes_one_candidate(front, owners, opts);
        assert forall|i: int| 0 <= i < n implies #[trigger] wanted(i) == before(i) by {
            assert(front[i] == found[i]);
        }
        assert(places::are_the_places(at, n, wanted)) by {
            assert forall|i: int| 0 <= i < n && #[trigger] wanted(i) implies at.contains(i) by {
                assert(before(i));
            }
            assert forall|k: int| 0 <= k < at.len() implies 0 <= #[trigger] at[k] < n && wanted(
                at[k],
            ) by {
                assert(before(at[k]));
            }
        }
        let more = places::places_of_a_longer_list(at, n, wanted);
        let all = candidates_in_order(found, owners, opts);
        let old = candidates_in_order(front, owners, opts);
        assert forall|k: int| 0 <= k < more.len() implies {
            let c = #[trigger] all[k];
            let f = found[more[k]];
            &&& c.path == f.path
            &&& c.bytes == f.size.bytes
            &&& c.size_truncated == f.size.truncated
            &&& c.age == f.age
            &&& c.verdict == owner::verdict_for(owners[more[k]], f.age, opts.max_age)
        } by {
            if k < at.len() {
                assert(all[k] == old[k]);
                assert(front[at[k]] == found[at[k]]);
            }
        }
        more
    }
}

/// What is decided to go keeps its order, and so does what is decided to stay; every candidate
/// is in the one or the other by its own decision.
pub proof fn decisions_keep_their_order(cands: Seq<CandidateModel>) -> (at: (Seq<int>, Seq<int>))
    ensures
        places::are_the_places(at.0, cands.len(), |i: int| cands[i].verdict.reap),
        places::are_the_places(at.1, cands.len(), |i: int| !cands[i].verdict.reap),
        to_reap(cands).len() == at.0.len(),
        to_keep(cands).len() == at.1.len(),
        forall|k: int| 0 <= k < at.0.len() ==> #[trigger] to_reap(cands)[k] == cands[at.0[k]],
        forall|k: int| 0 <= k < at.1.len() ==> #[trigger] to_keep(cands)[k] == cands[at.1[k]],
{
    let goes = |c: CandidateModel| c.verdict.reap;
    let stays = |c: CandidateModel| !c.verdict.reap;
    let x = filtered_places(cands, goes);
    let y = filtered_places(cands, stays);
    assert(places::are_the_places(x, cands.len(), |i: int| cands[i].verdict.reap)) by {
        places::same_places(x, cands.len(), |i: int| goes(cands[i]), |i: int| cands[i].verdict.reap);
    }
    assert(places::are_the_places(y, cands.len(), |i: int| !cands[i].verdict.reap)) by {
        places::same_places(y, cands.len(), |i: int| stays(cands[i]), |i: int| !cands[i].verdict.reap);
    }
    (x, y)
}

proof fn filtered_places(
    cands: Seq<CandidateModel>,
    pred: spec_fn(CandidateModel) -> bool,
) -> (at: Seq<int>)
    ensures
        places::are_the_places(at, cands.len(), |i: int| pred(cands[i])),
        cands.filter(pred).len() == at.len(),
        forall|k: int| 0 <= k < at.len() ==> #[trigger] cands.filter(pred)[k] == cands[at[k]],
    decreases cands.len(),
{
    reveal(Seq::filter);
    let wanted = |i: int| pred(cands[i]);
    if cands.len() == 0 {
        Seq::empty()
    } else {
        let front = cands.drop_last();
        let n = (cands.len() - 1) as nat;
        let at = filtered_places(front, pred);
        places::same_places(at, n, |i: int| pred(front[i]), wanted);
        let more = places::places_of_a_longer_list(at, n, wanted);
        assert forall|k: int| 0 <= k < more.len() implies #[trigger] cands.filter(pred)[k]
            == cands[more[k]] by {
            if k < at.len() {
                assert(cands.filter(pred)[k] == front.filter(pred)[k]);
                assert(front[at[k]] == cands[at[k]]);
            }
        }
        more
    }
}

/// A dry run deletes nothing, and one on request everything that was decided to go.
pub proof fn deletion_is_on_request(cands: Seq<CandidateModel>, opts: OptionsModel)
    ensures
        !opts.apply ==> doomed(cands, opts).len() == 0,
        opts.apply ==> doomed(cands, opts) == to_reap(cands),
{
}

/// Whether `cands` are what may be collected: decided by owners for answers that `probe` may
/// give, the largest first.
pub open spec fn may_be_collected<P: ProcessProbe>(
    found: Seq<FoundModel>,
    opts: OptionsModel,
    probe: &P,
    cands: Seq<CandidateModel>,
) -> bool {
    exists|owners: Seq<Owner>|
        {
            &&& #[trigger] probed_owners(found, opts, probe, owners)
            &&& cands == biggest_first(candidates_in_order(found, owners, opts))
        }
}

/// Whether every answer that `probe` may give about the process in the name of an entry is
/// `answer`.
pub open spec fn always_answers<P: ProcessProbe>(
    f: FoundModel,
    probe: &P,
    answer: Option<bool>,
) -> bool {
    &&& f.name is Some
    &&& owner::pid_of(f.name->0) is Some
    &&& forall|a: Option<bool>|
        call_ensures(P::is_alive, (probe, owner::pid_of(f.name->0)->0), a) ==> a == answer
}

/// Whether the name of an entry carries no process id.
pub open spec fn names_no_process(f: FoundModel) -> bool {
    f.name is Some && owner::pid_of(f.name->0) is None
}

proof fn a_doomed_candidate_has_an_entry<P: ProcessProbe>(
    found: Seq<FoundModel>,
    opts: OptionsModel,
    probe: &P,
    cands: Seq<CandidateModel>,
    k: int,
) -> (at: (int, Owner))
    requires
        may_be_collected(found, opts, probe, cands),
        0 <= k < doomed(cands, opts).len(),
    ensures
        0 <= at.0 < found.len(),
        collected(found[at.0], opts.include_untagged),
        owner::probed_owner(found[at.0].name->0, probe, at.1),
        doomed(cands, opts)[k] == candidate_for(found[at.0], at.1, opts.max_age),
        doomed(cands, opts)[k].verdict.reap,
        opts.apply,
{
    let owners = choose|owners: Seq<Owner>|
        {
            &&& #[trigger] probed_owners(found, opts, probe, owners)
            &&& cands == biggest_first(candidates_in_order(found, owners, opts))
        };
    let in_order = candidates_in_order(found, owners, opts);
    let c = doomed(cands, opts)[k];
    only_the_reaped_are_doomed(cands, opts, k);
    biggest_first_sorts(in_order);
    same_elements(cands, in_order, c);
    candidates_come_from_entries(found, owners, opts, c);
    let i = choose|i: int|
        0 <= i < found.len() && collected(#[trigger] found[i], opts.include_untagged) && c
            == candidate_for(found[i], owners[i], opts.max_age);
    (i, owners[i])
}

proof fn a_collected_entry_has_a_candidate<P: ProcessProbe>(
    found: Seq<FoundModel>,
    opts: OptionsModel,
    probe: &P,
    cands: Seq<CandidateModel>,
    i: int,
) -> (at: (int, Owner))
    requires
        may_be_collected(found, opts, probe, cands),
        0 <= i < found.len(),
        collected(found[i], opts.include_untagged),
    ensures
        0 <= at.0 < cands.len(),
        owner::probed_owner(found[i].name->0, probe, at.1),
        cands[at.0] == candidate_for(found[i], at.1, opts.max_age),
{
    let owners = choose|owners: Seq<Owner>|
        {
            &&& #[trigger] probed_owners(found, opts, probe, owners)
            &&& cands == biggest_first(candidates_in_order(found, owners, opts))
        };
    let in_order = candidates_in_order(found, owners, opts);
    let c = candidate_for(found[i], owners[i], opts.max_age);
    entries_become_candidates(found, owners, opts, i);
    biggest_first_sorts(in_order);
    same_elements(in_order, cands, c);
    let k = choose|k: int| 0 <= k < cands.len() && cands[k] == c;
    (k, owners[i])
}

/// The directory of a running process is never deleted: where every answer about the process
/// in the name of each entry of that path is "alive", no such path is among the doomed,
/// whatever the process id, the age, the size and the options.
pub proof fn a_running_process_keeps_its_directory<P: ProcessProbe>(
    found: Seq<FoundModel>,
    opts: OptionsModel,
    probe: &P,
    cands: Seq<CandidateModel>,
    path: PathModel,
)
    requires
        may_be_collected(found, opts, probe, cands),
        forall|i: int|
            0 <= i < found.len() && #[trigger] found[i].path == path ==> always_answers(
                found[i],
                probe,
                Some(true),
            ),
    ensures
        forall|k: int|
            0 <= k < doomed(cands, opts).len() ==> (#[trigger] doomed(cands, opts)[k]).path != path,
{
    assert forall|k: int| 0 <= k < doomed(cands, opts).len() implies (#[trigger] doomed(
        cands,
        opts,
    )[k]).path != path by {
        let (i, owner) = a_doomed_candidate_has_an_entry(found, opts, probe, cands, k);
        if found[i].path == path {
            assert(always_answers(found[i], probe, Some(true)));
            owner::a_probe_settles_whose_root_it_is(found[i].name->0, probe, owner);
        }
    }
}

/// On request the directory of a process that is gone is deleted, whatever its age: where every
/// answer about the process in the name of a considered directory is "dead", its path is among
/// the doomed.
pub proof fn a_gone_process_loses_its_directory<P: ProcessProbe>(
    found: Seq<FoundModel>,
    opts: OptionsModel,
    probe: &P,
    cands: Seq<CandidateModel>,
    i: int,
)
    requires
        may_be_collected(found, opts, probe, cands),
        0 <= i < found.len(),
        collected(found[i], opts.include_untagged),
        always_answers(found[i], probe, Some(false)),
        opts.apply,
    ensures
        exists|k: int|
            0 <= k < doomed(cands, opts).len() && (#[trigger] doomed(cands, opts)[k]).path
                == found[i].path,
{
    let (n, owner) = a_collected_entry_has_a_candidate(found, opts, probe, cands, i);
    owner::a_probe_settles_whose_root_it_is(found[i].name->0, probe, owner);
    cands.lemma_filter_contains(|c: CandidateModel| c.verdict.reap, n);
    let k = choose|k: int| 0 <= k < to_reap(cands).len() && to_reap(cands)[k] == cands[n];
    assert(doomed(cands, opts)[k].path == found[i].path);
}

/// Where nothing is known of a process, age decides: a directory at or above the threshold is
/// deleted on request, and one below it never is. Nothing is known where the name carries no
/// process id, and where there is no answer about it.
pub proof fn age_decides_where_no_process_does<P: ProcessProbe>(
    found: Seq<FoundModel>,
    opts: OptionsModel,
    probe: &P,
    cands: Seq<CandidateModel>,
    i: int,
)
    requires
        may_be_collected(found, opts, probe, cands),
        0 <= i < found.len(),
        names_no_process(found[i]) || always_answers(found[i], probe, None),
        forall|j: int|
            0 <= j < found.len() && (#[trigger] found[j]).path == found[i].path ==> j == i,
    ensures
        (exists|k: int|
            0 <= k < doomed(cands, opts).len() && (#[trigger] doomed(cands, opts)[k]).path
                == found[i].path) <==> opts.apply && collected(found[i], opts.include_untagged)
            && found[i].age >= opts.max_age,
{
    if exists|k: int|
        0 <= k < doomed(cands, opts).len() && (#[trigger] doomed(cands, opts)[k]).path
            == found[i].path {
        let k = choose|k: int|
            0 <= k < doomed(cands, opts).len() && (#[trigger] doomed(cands, opts)[k]).path
                == found[i].path;
        let (j, owner) = a_doomed_candidate_has_an_entry(found, opts, probe, cands, k);
        assert(found[j].path == found[i].path);
        owner::a_probe_settles_whose_root_it_is(found[i].name->0, probe, owner);
    }
    if opts.apply && collected(found[i], opts.include_untagged) && found[i].age >= opts.max_age {
        let (n, owner) = a_collected_entry_has_a_candidate(found, opts, probe, cands, i);
        owner::a_probe_settles_whose_root_it_is(found[i].name->0, probe, owner);
        cands.lemma_filter_contains(|c: CandidateModel| c.verdict.reap, n);
        let k = choose|k: int| 0 <= k < to_reap(cands).len() && to_reap(cands)[k] == cands[n];
        assert(doomed(cands, opts)[k].path == found[i].path);
    }
}

/// Every deletion is accounted for once: where it succeeded, its directory is counted as
/// removed; where it failed, there is a message with its path and the error. Both keep their
/// order.
pub proof fn every_deletion_is_accounted_for(
    doomed: Seq<CandidateModel>,
    outcomes: Seq<Result<(), String>>,
) -> (at: (Seq<int>, Seq<int>))
    requires
        doomed.len() <= outcomes.len(),
    ensures
        places::are_the_places(at.0, doomed.len(), |i: int| outcomes[i] is Ok),
        places::are_the_places(at.1, doomed.len(), |i: int| outcomes[i] is Err),
        gone(doomed, outcomes).len() == at.0.len(),
        failure_texts(doomed, outcomes).len() == at.1.len(),
        forall|k: int| 0 <= k < at.0.len() ==> #[trigger] gone(doomed, outcomes)[k] == doomed[at.0[k]],
        forall|k: int|
            0 <= k < at.1.len() ==> #[trigger] failure_texts(doomed, outcomes)[k]
                == "  failed to remove "@ + doomed[at.1[k]].path.shown() + ": "@
                + outcomes[at.1[k]]->Err_0@,
    decreases doomed.len(),
{
    let fine = |i: int| outcomes[i] is Ok;
    let failed = |i: int| outcomes[i] is Err;
    if doomed.len() == 0 {
        (Seq::empty(), Seq::empty())
    } else {
        let front = doomed.drop_last();
        let n = (doomed.len() - 1) as nat;
        let (x, y) = every_deletion_is_accounted_for(front, outcomes);
        let more_x = places::places_of_a_longer_list(x, n, fine);
        let more_y = places::places_of_a_longer_list(y, n, failed);
        assert forall|k: int| 0 <= k < more_x.len() implies #[trigger] gone(doomed, outcomes)[k]
            == doomed[more_x[k]] by {
            if k < x.len() {
                assert(gone(doomed, outcomes)[k] == gone(front, outcomes)[k]);
                assert(front[x[k]] == doomed[x[k]]);
            }
        }
        assert forall|k: int| 0 <= k < more_y.len() implies #[trigger] failure_texts(
            doomed,
            outcomes,
        )[k] == "  failed to remove "@ + doomed[more_y[k]].path.shown() + ": "@
            + outcomes[more_y[k]]->Err_0@ by {
            if k < y.len() {
                assert(failure_texts(doomed, outcomes)[k] == failure_texts(front, outcomes)[k]);
                assert(front[y[k]] == doomed[y[k]]);
            }
        }
        (more_x, more_y)
    }
}

/// A dry run with something to delete says in its last line that nothing was removed; the
/// report stands in front of it, and is all that is said otherwise.
pub proof fn a_dry_run_says_so(root: Seq<char>, cands: Seq<CandidateModel>, opts: OptionsModel)
    ensures
        ({
            let report = report::report_lines(root, to_reap(cands), to_keep(cands), opts.max_age);
            let lines = sweep_lines(root, cands, opts);
            &&& lines.take(report.len() as int) == report
            &&& opts.apply || to_reap(cands).len() == 0 ==> lines.len() == report.len()
            &&& !opts.apply && to_reap(cands).len() > 0 ==> lines.last()
                == "dry run — nothing removed. Re-run with --apply to delete."@
        }),
{
    let report = report::report_lines(root, to_reap(cands), to_keep(cands), opts.max_age);
    assert(sweep_lines(root, cands, opts).take(report.len() as int) =~= report);
}

/// The command ends with what was swept: it fails exactly where something could not be
/// removed, keeps the report and the messages as they are, and adds how much was removed where
/// anything was tried, and how much was not where anything failed.
pub proof fn the_end_says_what_was_done(
    report: Seq<char>,
    removed: nat,
    freed: u64,
    freed_truncated: bool,
    failures: Seq<Seq<char>>,
)
    ensures
        ({
            let end = conclusion(report, removed, freed, freed_truncated, failures);
            let line = "removed "@ + text::decimal(removed) + " dir(s), freed "@ + size::size_text(
                freed,
                freed_truncated,
            ) + seq!['\n'];
            &&& end.exit_code == 0 <==> failures.len() == 0
            &&& end.exit_code <= 1
            &&& removed == 0 && failures.len() == 0 ==> end.stdout == report
            &&& removed > 0 || failures.len() > 0 ==> end.stdout == report + line
            &&& end.stderr.take(failures.len() as int) == failures
            &&& failures.len() == 0 ==> end.stderr.len() == 0
            &&& failures.len() > 0 ==> end.stderr.len() == failures.len() + 1 && end.stderr.last()
                == text::decimal(failures.len()) + " dir(s) could not be removed"@
        }),
{
    let end = conclusion(report, removed, freed, freed_truncated, failures);
    assert(end.stderr.take(failures.len() as int) =~= failures);
    text::unlines_one(
        "removed "@ + text::decimal(removed) + " dir(s), freed "@ + size::size_text(
            freed,
            freed_truncated,
        ),
    );
}

/// The command goes on exactly with arguments that ask for a sweep. Asked for help it shows
/// how it is used and succeeds; with arguments that it cannot read it complains, shows how it
/// is used, and fails.
pub proof fn the_command_begins_as_it_is_asked(args: Seq<Seq<char>>)
    ensures
        ({
            let asked = args::parsed(args, args::default_options());
            let begun = beginning(args);
            &&& asked matches Ok(Some(opts)) ==> begun == Ok::<OptionsModel, RunOutputModel>(opts)
            &&& asked matches Ok(None) ==> begun is Err && begun->Err_0.stdout == args::USAGE@
                && begun->Err_0.stderr.len() == 0 && begun->Err_0.exit_code == 0
            &&& asked matches Err(msg) ==> begun is Err && begun->Err_0.stdout == args::USAGE@
                && begun->Err_0.stderr == seq!["xtask clean-e2e-tmp: "@ + msg]
                && begun->Err_0.exit_code != 0
        }),
{
}

/// The outputs of several directories stand one behind the other, and the note, if there is
/// one, on a line in front of them all.
pub proof fn outputs_follow_one_another(
    note: Option<Seq<char>>,
    outputs: Seq<RunOutputModel>,
    one: RunOutputModel,
)
    ensures
        gathered(Seq::empty()).stdout.len() == 0,
        gathered(Seq::empty()).stderr.len() == 0,
        gathered(outputs.push(one)).stdout == gathered(outputs).stdout + one.stdout,
        gathered(outputs.push(one)).stderr == gathered(outputs).stderr + one.stderr,
        gathered(outputs.push(one)).exit_code >= one.exit_code,
        gathered(outputs.push(one)).exit_code >= gathered(outputs).exit_code,
        gathered(outputs.push(one)).exit_code == one.exit_code || gathered(
            outputs.push(one),
        ).exit_code == gathered(outputs).exit_code,
        whole_output(note, outputs).stderr == gathered(outputs).stderr,
        note is None ==> whole_output(note, outputs).stdout == gathered(outputs).stdout,
        note is Some ==> whole_output(note, outputs).stdout == note->0 + seq!['\n'] + gathered(
            outputs,
        ).stdout,
{
    assert(outputs.push(one).drop_last() =~= outputs);
    if let Some(line) = note {
        text::unlines_one(line);
    }
}

} // verus!
