//! The command line.

use crate::path;
use crate::path::slash;
use crate::path::{NativePath, PathModel};
use crate::places;
use crate::text;
use vstd::prelude::*;
use vstd::string::*;

verus! {

/// Hours after which a directory without a usable process id is stale.
pub const DEFAULT_MAX_AGE_HOURS: u64 = 6;

/// What `--help` shows.
pub const USAGE: &'static str =
    "usage: cargo xtask clean-e2e-tmp [--older-than <hours>] [--apply] [--include-untagged] [--root <dir>]

Reaps stale e2e harness temp dirs left by SIGKILLed test processes.
Dry-run by default; --apply is required to delete.

A `dad-tests-<pid>-*` root is decided by whether that PID is still
alive: dead means reaped at any age, alive means never reaped. The age
threshold only decides roots with no usable PID — untagged or malformed
names, and hosts with no way to ask whether a PID is alive.

  --older-than <hours>  age threshold for the fallback case only
                        (default: 6). It does NOT hold back a dead PID.
  --apply               actually remove the directories
  --include-untagged    ALSO reap `.tmp*` dirs. These use the
                        tempfile crate's DEFAULT prefix and are shared with
                        every Rust program on this machine — only use this
                        when no other Rust build or tool is running.
                        Applies only to the system temp dir and to the
                        directories named with --root.
  --root <dir>          scan this directory INSTEAD of the private parent
                        and the system temp dir. May be repeated.
";

/// What was asked for.
#[derive(Debug, PartialEq, Eq)]
pub struct Options {
    /// Threshold of the age rule, in seconds.
    pub max_age: u64,
    /// Delete, and not merely report.
    pub apply: bool,
    /// Consider the shared prefix as well.
    pub include_untagged: bool,
    /// The directories to scan in place of the standard ones, in order.
    pub roots: Vec<String>,
}

/// What [`Options`] stand for.
#[verifier::ext_equal]
pub struct OptionsModel {
    pub max_age: u64,
    pub apply: bool,
    pub include_untagged: bool,
    pub roots: Seq<Seq<char>>,
}

impl View for Options {
    type V = OptionsModel;

    open spec fn view(&self) -> OptionsModel {
        OptionsModel {
            max_age: self.max_age,
            apply: self.apply,
            include_untagged: self.include_untagged,
            roots: text::texts(self.roots@),
        }
    }
}

/// What holds without any argument: a dry run over the harness's own directories in the
/// standard places.
pub open spec fn default_options() -> OptionsModel {
    OptionsModel {
        max_age: (DEFAULT_MAX_AGE_HOURS * 3600) as u64,
        apply: false,
        include_untagged: false,
        roots: Seq::empty(),
    }
}

/// Seconds in `hours`, or the largest `u64` where that is more.
pub open spec fn hours_in_seconds(hours: nat) -> u64 {
    if hours * 3600 <= u64::MAX {
        (hours * 3600) as u64
    } else {
        u64::MAX
    }
}

/// The digits of a whole number: all of it, or all behind a plus sign.
pub open spec fn number_digits(raw: Seq<char>) -> Seq<char> {
    if raw.len() > 0 && raw[0] == '+' {
        raw.drop_first()
    } else {
        raw
    }
}

/// A whole number that fits in a `u64`.
pub open spec fn whole_number(raw: Seq<char>) -> Option<u64> {
    let digits = number_digits(raw);
    if digits.len() > 0 && text::all_digits(digits) && text::decimal_value(digits) <= u64::MAX {
        Some(text::decimal_value(digits) as u64)
    } else {
        None
    }
}

/// What the arguments ask for, starting from `opts`: options; nothing but the help text;
/// or the complaint about the first argument that cannot be read.
pub open spec fn parsed(args: Seq<Seq<char>>, opts: OptionsModel) -> Result<
    Option<OptionsModel>,
    Seq<char>,
>
    decreases args.len(),
{
    if args.len() == 0 {
        Ok(Some(opts))
    } else if args[0] == "--apply"@ {
        parsed(args.skip(1), OptionsModel { apply: true, ..opts })
    } else if args[0] == "--include-untagged"@ {
        parsed(args.skip(1), OptionsModel { include_untagged: true, ..opts })
    } else if args[0] == "--older-than"@ {
        if args.len() < 2 {
            Err("--older-than needs a value in hours"@)
        } else {
            match whole_number(args[1]) {
                Some(hours) => parsed(
                    args.skip(2),
                    OptionsModel { max_age: hours_in_seconds(hours as nat), ..opts },
                ),
                None => Err(
                    "--older-than expects whole hours, got "@ + text::debug_form(args[1]),
                ),
            }
        }
    } else if args[0] == "--root"@ {
        if args.len() < 2 {
            Err("--root needs a directory"@)
        } else {
            parsed(args.skip(2), OptionsModel { roots: opts.roots.push(args[1]), ..opts })
        }
    } else if args[0] == "-h"@ || args[0] == "--help"@ {
        Ok(None)
    } else {
        Err("unknown argument "@ + text::debug_form(args[0]))
    }
}

/// The same result in terms of what its parts stand for.
pub open spec fn result_model(r: Result<Option<Options>, String>) -> Result<
    Option<OptionsModel>,
    Seq<char>,
> {
    match r {
        Ok(Some(opts)) => Ok(Some(opts@)),
        Ok(None) => Ok(None),
        Err(msg) => Err(msg@),
    }
}

/// Read a whole number, with an optional plus sign in front.
pub fn parse_whole_number(raw: &str) -> (r: Option<u64>)
    ensures
        r == whole_number(raw@),
{
    let chars = text::chars_of(raw);
    let from: usize = if chars.len() > 0 && chars[0] == '+' {
        1
    } else {
        0
    };
    proof {
        assert(number_digits(raw@) =~= chars@.subrange(from as int, chars@.len() as int));
    }
    text::parse_digits(chars.as_slice(), from, chars.len(), u64::MAX)
}

/// Read the command line. `Ok(None)` asks for the help text.
pub fn parse_args(args: &[String]) -> (r: Result<Option<Options>, String>)
    ensures
        result_model(r) == parsed(text::texts(args@), default_options()),
{
    let mut opts = Options {
        max_age: DEFAULT_MAX_AGE_HOURS * 3600,
        apply: false,
        include_untagged: false,
        roots: Vec::new(),
    };
    let ghost all = text::texts(args@);
    let mut i: usize = 0;
    proof {
        assert(all.skip(0) =~= all);
        assert(opts@ =~= default_options());
    }
    while i < args.len()
        invariant
            i <= args@.len(),
            all == text::texts(args@),
            parsed(all.skip(i as int), opts@) == parsed(all, default_options()),
        decreases args@.len() - i,
    {
        let arg: &str = args[i].as_str();
        proof {
            assert(all.skip(i as int)[0] == arg@);
            assert(all.skip(i as int).skip(1) =~= all.skip(i + 1));
        }
        if text::same_text(arg, "--apply") {
            opts.apply = true;
            i = i + 1;
        } else if text::same_text(arg, "--include-untagged") {
            opts.include_untagged = true;
            i = i + 1;
        } else if text::same_text(arg, "--older-than") {
            if i + 1 >= args.len() {
                return Err("--older-than needs a value in hours".to_owned());
            }
            let raw: &str = args[i + 1].as_str();
            proof {
                assert(all.skip(i as int)[1] == raw@);
                assert(all.skip(i as int).skip(2) =~= all.skip(i + 2));
            }
            match parse_whole_number(raw) {
                Some(hours) => {
                    // An hour count near the largest number means a threshold that is
                    // never reached, not an overflow.
                    opts.max_age = if hours <= u64::MAX / 3600 {
                        hours * 3600
                    } else {
                        u64::MAX
                    };
                },
                None => {
                    let mut msg = "--older-than expects whole hours, got ".to_owned();
                    msg.append(text::debug_text(raw).as_str());
                    return Err(msg);
                },
            }
            i = i + 2;
        } else if text::same_text(arg, "--root") {
            if i + 1 >= args.len() {
                return Err("--root needs a directory".to_owned());
            }
            let dir: &str = args[i + 1].as_str();
            let ghost before = opts@;
            proof {
                assert(all.skip(i as int)[1] == dir@);
                assert(all.skip(i as int).skip(2) =~= all.skip(i + 2));
            }
            opts.roots.push(dir.to_owned());
            proof {
                assert(opts@ =~= (OptionsModel { roots: before.roots.push(dir@), ..before }));
            }
            i = i + 2;
        } else if text::same_text(arg, "-h") || text::same_text(arg, "--help") {
            return Ok(None);
        } else {
            let mut msg = "unknown argument ".to_owned();
            msg.append(text::debug_text(arg).as_str());
            return Err(msg);
        }
    }
    Ok(Some(opts))
}

/// The help text.
pub fn usage() -> (s: String)
    ensures
        s@ == USAGE@,
{
    USAGE.to_owned()
}

// ---------------------------------------------------------------------------
// Where to look
// ---------------------------------------------------------------------------

/// The directories to scan, each with whether the shared prefix is considered in it: the
/// named ones; where none is named, the private parent, in which the shared prefix is never
/// considered, and the system's temporary directory.
pub open spec fn roots_for(
    opts: OptionsModel,
    private_parent: Seq<char>,
    system_tmp: Seq<char>,
) -> Seq<(Seq<char>, bool)> {
    if opts.roots.len() > 0 {
        opts.roots.map_values(|root: Seq<char>| (root, opts.include_untagged))
    } else {
        seq![(private_parent, false), (system_tmp, opts.include_untagged)]
    }
}

/// A list of directories to scan.
pub open spec fn root_models(roots: Seq<(String, bool)>) -> Seq<(Seq<char>, bool)> {
    roots.map_values(|r: (String, bool)| (r.0@, r.1))
}

/// The directories to scan, each with whether the shared prefix is considered in it.
pub fn scan_roots(opts: &Options, private_parent: &str, system_tmp: &str) -> (r: Vec<
    (String, bool),
>)
    ensures
        root_models(r@) == roots_for(opts@, private_parent@, system_tmp@),
{
    let mut out: Vec<(String, bool)> = Vec::new();
    if opts.roots.len() == 0 {
        out.push((private_parent.to_owned(), false));
        out.push((system_tmp.to_owned(), opts.include_untagged));
        proof {
            assert(opts@.roots.len() == 0);
            assert(root_models(out@) =~= roots_for(opts@, private_parent@, system_tmp@));
        }
        return out;
    }
    let mut i: usize = 0;
    while i < opts.roots.len()
        invariant
            i <= opts.roots@.len(),
            out@.len() == i,
            forall|j: int|
                0 <= j < i ==> (#[trigger] out@[j]).0@ == opts.roots@[j]@ && out@[j].1
                    == opts.include_untagged,
        decreases opts.roots@.len() - i,
    {
        out.push((opts.roots[i].as_str().to_owned(), opts.include_untagged));
        i = i + 1;
    }
    proof {
        assert(root_models(out@) =~= roots_for(opts@, private_parent@, system_tmp@));
    }
    out
}

/// Whether one of the first `n` directories resolves to `dir`.
pub open spec fn seen_before(resolved: Seq<Option<Seq<char>>>, n: int, dir: Seq<char>) -> bool {
    exists|j: int| 0 <= j < n && #[trigger] resolved[j] == Some(dir)
}

/// The directories that are there, each once: of several that resolve to the same directory
/// the first. What each of them resolves to is given; nothing for one that is absent.
pub open spec fn present_once(
    roots: Seq<(Seq<char>, bool)>,
    resolved: Seq<Option<Seq<char>>>,
) -> Seq<(Seq<char>, bool)>
    decreases roots.len(),
{
    if roots.len() == 0 {
        Seq::empty()
    } else {
        let n = roots.len() - 1;
        let front = present_once(roots.drop_last(), resolved);
        match resolved[n] {
            Some(dir) if !seen_before(resolved, n, dir) => front.push(roots.last()),
            _ => front,
        }
    }
}

/// What a list of resolved directories stands for.
pub open spec fn resolved_models(resolved: Seq<Option<String>>) -> Seq<Option<Seq<char>>> {
    resolved.map_values(|r: Option<String>| text::maybe(r))
}

fn is_repeated(resolved: &[Option<String>], n: usize, dir: &str) -> (r: bool)
    requires
        n <= resolved@.len(),
    ensures
        r == seen_before(resolved_models(resolved@), n as int, dir@),
{
    let ghost all = resolved_models(resolved@);
    let mut j: usize = 0;
    while j < n
        invariant
            j <= n <= resolved@.len(),
            all == resolved_models(resolved@),
            forall|k: int| 0 <= k < j ==> #[trigger] all[k] != Some(dir@),
        decreases n - j,
    {
        proof {
            assert(all[j as int] == text::maybe(resolved@[j as int]));
        }
        if let Some(other) = &resolved[j] {
            if text::same_text(other.as_str(), dir) {
                return true;
            }
        }
        j = j + 1;
    }
    false
}

/// Leave out the directories that are absent, and those that were already there under another
/// spelling. What each of them resolves to is given; nothing for one that is absent.
pub fn distinct_roots(roots: Vec<(String, bool)>, resolved: &[Option<String>]) -> (r: Vec<
    (String, bool),
>)
    requires
        resolved@.len() == roots@.len(),
    ensures
        root_models(r@) == present_once(root_models(roots@), resolved_models(resolved@)),
{
    let ghost all = root_models(roots@);
    let ghost where_to = resolved_models(resolved@);
    let mut out: Vec<(String, bool)> = Vec::new();
    let mut i: usize = 0;
    proof {
        assert(root_models(out@) =~= present_once(all.take(0), where_to));
    }
    while i < roots.len()
        invariant
            i <= roots@.len() == resolved@.len(),
            all == root_models(roots@),
            where_to == resolved_models(resolved@),
            root_models(out@) == present_once(all.take(i as int), where_to),
        decreases roots@.len() - i,
    {
        let ghost before = out@;
        proof {
            assert(all.take(i + 1).drop_last() =~= all.take(i as int));
            assert(all.take(i + 1).last() == all[i as int]);
            assert(where_to[i as int] == text::maybe(resolved@[i as int]));
        }
        if let Some(dir) = &resolved[i] {
            if !is_repeated(resolved, i, dir.as_str()) {
                out.push((roots[i].0.as_str().to_owned(), roots[i].1));
                proof {
                    assert(root_models(out@) =~= root_models(before).push(all[i as int]));
                }
            }
        }
        i = i + 1;
    }
    proof {
        assert(all.take(i as int) =~= all);
    }
    out
}

/// The same options with or without the shared prefix, as the scan of one directory takes
/// them.
pub fn options_within(opts: &Options, include_untagged: bool) -> (r: Options)
    ensures
        r@ == (OptionsModel { include_untagged, ..opts@ }),
{
    let mut roots: Vec<String> = Vec::new();
    let mut i: usize = 0;
    while i < opts.roots.len()
        invariant
            i <= opts.roots@.len(),
            text::texts(roots@) == text::texts(opts.roots@).take(i as int),
        decreases opts.roots@.len() - i,
    {
        let ghost before = roots@;
        let root = opts.roots[i].as_str().to_owned();
        roots.push(root);
        proof {
            assert(text::texts(roots@) =~= text::texts(before).push(root@));
            assert(text::texts(opts.roots@).take(i + 1) =~= text::texts(opts.roots@).take(
                i as int,
            ).push(root@));
        }
        i = i + 1;
    }
    proof {
        assert(text::texts(opts.roots@).take(i as int) =~= text::texts(opts.roots@));
    }
    Options { max_age: opts.max_age, apply: opts.apply, include_untagged, roots }
}

/// What is said about a base that the harness was moved to, and that is not scanned.
pub open spec fn note_on(base: PathModel) -> Seq<char> {
    "note: DAD_E2E_TMPDIR is set to "@ + base.shown()
        + ", which is not scanned unless it is named. To reap it: cargo xtask clean-e2e-tmp --root "@
        + base.shown()
}

/// Whether a directory was named, in whatever spelling.
pub open spec fn is_named(opts: OptionsModel, base: PathModel) -> bool {
    exists|i: int|
        0 <= i < opts.roots.len() && base.with_text(#[trigger] opts.roots[i]).key() == base.key()
}

/// The note about the value of `DAD_E2E_TMPDIR`, where the variable is set and the directory
/// was not named. Where the harness may write and what may be deleted are two decisions, so
/// the variable alone does not have its directory scanned.
pub fn moved_base_note(opts: &Options, base: Option<&NativePath>) -> (r: Option<String>)
    ensures
        match (base, r) {
            (None, None) => true,
            (Some(b), None) => is_named(opts@, b@),
            (Some(b), Some(note)) => !is_named(opts@, b@) && note@ == note_on(b@)
                && text::control_free(note@),
            (None, Some(_)) => false,
        },
{
    let dir: &NativePath = match base {
        Some(b) => b,
        None => {
            return None;
        },
    };
    let mut i: usize = 0;
    while i < opts.roots.len()
        invariant
            i <= opts.roots@.len(),
            base == Some(dir),
            forall|j: int|
                0 <= j < i ==> dir@.with_text(#[trigger] opts@.roots[j]).key() != dir@.key(),
        decreases opts.roots@.len() - i,
    {
        proof {
            assert(opts@.roots[i as int] == opts.roots@[i as int]@);
        }
        if dir.with_text(opts.roots[i].as_str()).same(dir) {
            return None;
        }
        i = i + 1;
    }
    let shown = dir.shown();
    let mut note = "note: DAD_E2E_TMPDIR is set to ".to_owned();
    note.append(shown.as_str());
    note.append(
        ", which is not scanned unless it is named. To reap it: cargo xtask clean-e2e-tmp --root ",
    );
    note.append(shown.as_str());
    proof {
        broadcast use text::printable_pieces;

        reveal_strlit("note: DAD_E2E_TMPDIR is set to ");
        reveal_strlit(
            ", which is not scanned unless it is named. To reap it: cargo xtask clean-e2e-tmp --root ",
        );
    }
    Some(note)
}

// ---------------------------------------------------------------------------
// Laws
// ---------------------------------------------------------------------------

/// Nothing is deleted unless `--apply` was asked for, the shared prefix is left alone unless
/// `--include-untagged` was, and the standard directories are scanned unless `--root` was.
pub proof fn deletion_is_asked_for(args: Seq<Seq<char>>, opts: OptionsModel)
    ensures
        parsed(args, opts) matches Ok(Some(o)) ==> {
            &&& o.apply ==> opts.apply || args.contains("--apply"@)
            &&& o.include_untagged ==> opts.include_untagged || args.contains(
                "--include-untagged"@,
            )
            &&& o.roots.len() > opts.roots.len() ==> args.contains("--root"@)
            &&& o.roots.len() >= opts.roots.len()
        },
    decreases args.len(),
{
    if args.len() > 0 {
        if args[0] == "--apply"@ {
            deletion_is_asked_for(args.skip(1), OptionsModel { apply: true, ..opts });
            found_in_tail(args, 1);
        } else if args[0] == "--include-untagged"@ {
            deletion_is_asked_for(args.skip(1), OptionsModel { include_untagged: true, ..opts });
            found_in_tail(args, 1);
        } else if args[0] == "--older-than"@ && args.len() >= 2 {
            if let Some(hours) = whole_number(args[1]) {
                deletion_is_asked_for(
                    args.skip(2),
                    OptionsModel { max_age: hours_in_seconds(hours as nat), ..opts },
                );
                found_in_tail(args, 2);
            }
        } else if args[0] == "--root"@ && args.len() >= 2 {
            deletion_is_asked_for(
                args.skip(2),
                OptionsModel { roots: opts.roots.push(args[1]), ..opts },
            );
            found_in_tail(args, 2);
        }
    }
}

/// Named directories replace the standard ones: each directory that is scanned was named, in
/// the order of the names. And the shared prefix is considered nowhere unless it was asked
/// for.
pub proof fn named_directories_replace_the_standard_ones(
    opts: OptionsModel,
    private_parent: Seq<char>,
    system_tmp: Seq<char>,
)
    ensures
        ({
            let roots = roots_for(opts, private_parent, system_tmp);
            &&& opts.roots.len() > 0 ==> roots.len() == opts.roots.len()
            &&& opts.roots.len() > 0 ==> forall|i: int|
                0 <= i < roots.len() ==> (#[trigger] roots[i]).0 == opts.roots[i]
            &&& opts.roots.len() == 0 ==> roots.len() == 2 && roots[0].0 == private_parent
                && !roots[0].1 && roots[1].0 == system_tmp
            &&& !opts.include_untagged ==> forall|i: int|
                0 <= i < roots.len() ==> !(#[trigger] roots[i]).1
        }),
{
}

/// By default the shared prefix is considered in the system's temporary directory alone, and
/// there only where it was asked for and the directory is not the private parent under another
/// spelling.
pub proof fn the_private_parent_is_spared(
    opts: OptionsModel,
    private_parent: Seq<char>,
    system_tmp: Seq<char>,
    resolved: Seq<Option<Seq<char>>>,
    i: int,
)
    requires
        opts.roots.len() == 0,
        resolved.len() == 2,
        0 <= i < present_once(roots_for(opts, private_parent, system_tmp), resolved).len(),
        present_once(roots_for(opts, private_parent, system_tmp), resolved)[i].1,
    ensures
        present_once(roots_for(opts, private_parent, system_tmp), resolved)[i].0 == system_tmp,
        opts.include_untagged,
        resolved[1] != resolved[0],
{
    let roots = roots_for(opts, private_parent, system_tmp);
    reveal_with_fuel(present_once, 3);
    assert(roots.drop_last() =~= seq![(private_parent, false)]);
    assert(roots.drop_last().drop_last() =~= Seq::<(Seq<char>, bool)>::empty());
}

/// Leaving out what is absent or repeated adds no directory, and no two that are left resolve
/// to the same one.
pub proof fn no_directory_is_scanned_twice(
    roots: Seq<(Seq<char>, bool)>,
    resolved: Seq<Option<Seq<char>>>,
)
    requires
        roots.len() == resolved.len(),
    ensures
        exists|at: Seq<int>| #[trigger] picks_once(roots, resolved, at),
{
    present_once_picks(roots, resolved);
}

/// Whether `at` gives, in order, where the directories that are left stand among all: each is
/// there, and no two resolve to the same directory.
pub open spec fn picks_once(
    roots: Seq<(Seq<char>, bool)>,
    resolved: Seq<Option<Seq<char>>>,
    at: Seq<int>,
) -> bool {
    let left = present_once(roots, resolved);
    &&& at.len() == left.len()
    &&& forall|i: int|
        0 <= i < at.len() ==> 0 <= #[trigger] at[i] < roots.len() && left[i] == roots[at[i]]
            && resolved[at[i]] is Some
    &&& forall|i: int, j: int|
        0 <= i < j < at.len() ==> at[i] < at[j] && resolved[at[i]] != resolved[at[j]]
}

proof fn present_once_picks(roots: Seq<(Seq<char>, bool)>, resolved: Seq<Option<Seq<char>>>)
    requires
        roots.len() <= resolved.len(),
    ensures
        exists|at: Seq<int>| #[trigger] picks_once(roots, resolved, at),
    decreases roots.len(),
{
    if roots.len() == 0 {
        assert(picks_once(roots, resolved, Seq::empty()));
    } else {
        let front = roots.drop_last();
        let n = roots.len() - 1;
        present_once_picks(front, resolved);
        let at = choose|at: Seq<int>| #[trigger] picks_once(front, resolved, at);
        assert forall|i: int| 0 <= i < at.len() implies 0 <= #[trigger] at[i] < n && front[at[i]]
            == roots[at[i]] by {}
        match resolved[n] {
            Some(dir) if !seen_before(resolved, n, dir) => {
                let more = at.push(n);
                assert forall|i: int, j: int| 0 <= i < j < more.len() implies more[i] < more[j]
                    && resolved[more[i]] != resolved[more[j]] by {
                    if j == at.len() {
                        assert(0 <= at[i] < n);
                        assert(resolved[at[i]] != Some(dir));
                    }
                }
                assert(picks_once(roots, resolved, more));
            },
            _ => {
                assert(picks_once(roots, resolved, at));
            },
        }
    }
}

proof fn found_in_tail(args: Seq<Seq<char>>, n: int)
    requires
        0 <= n <= args.len(),
    ensures
        forall|x: Seq<char>| #[trigger] args.skip(n).contains(x) ==> args.contains(x),
{
    assert forall|x: Seq<char>| #[trigger] args.skip(n).contains(x) implies args.contains(x) by {
        let i = choose|i: int| 0 <= i < args.skip(n).len() && args.skip(n)[i] == x;
        assert(args[i + n] == x);
    }
}

/// Whether an argument is followed by a value of its own.
pub open spec fn takes_value(arg: Seq<char>) -> bool {
    arg == "--older-than"@ || arg == "--root"@
}

/// Whether an option begins at position `i`, and not the value of the one in front of it.
#[verifier::opaque]
pub open spec fn begins_at(args: Seq<Seq<char>>, i: int) -> bool
    decreases i,
{
    if i <= 0 {
        i == 0
    } else {
        ||| begins_at(args, i - 1) && !takes_value(args[i - 1])
        ||| i >= 2 && begins_at(args, i - 2) && takes_value(args[i - 2])
    }
}

/// Whether this option begins at position `i`.
pub open spec fn is_given_at(args: Seq<Seq<char>>, option: Seq<char>, i: int) -> bool {
    begins_at(args, i) && args[i] == option
}

/// Whether the option is among those that begin in front of position `n`.
pub open spec fn is_given(args: Seq<Seq<char>>, option: Seq<char>, n: int) -> bool {
    exists|i: int| 0 <= i < n && #[trigger] is_given_at(args, option, i)
}

/// Whether the argument at position `i` can be read as an option: one of the four, with its
/// value where it takes one, which is a number of hours for the threshold.
pub open spec fn is_readable_at(args: Seq<Seq<char>>, i: int) -> bool {
    ||| args[i] == "--apply"@
    ||| args[i] == "--include-untagged"@
    ||| args[i] == "--older-than"@ && i + 1 < args.len() && whole_number(args[i + 1]) is Some
    ||| args[i] == "--root"@ && i + 1 < args.len()
}

/// Whether every option that begins from position `from` up to position `to` can be read.
pub open spec fn all_readable(args: Seq<Seq<char>>, from: int, to: int) -> bool {
    forall|i: int| from <= i < to && #[trigger] begins_at(args, i) ==> is_readable_at(args, i)
}

/// Whether `age` is the threshold that the options in front of position `n` ask for: six hours
/// without any `--older-than`, and else what the last one says, in seconds.
pub open spec fn is_threshold(args: Seq<Seq<char>>, n: int, age: u64) -> bool {
    &&& !is_given(args, "--older-than"@, n) ==> age == 21_600
    &&& forall|i: int|
        0 <= i < n && #[trigger] is_given_at(args, "--older-than"@, i) && (forall|j: int|
            i < j < n ==> !#[trigger] is_given_at(args, "--older-than"@, j)) ==> {
            let hours = whole_number(args[i + 1])->0;
            age == if hours * 3600 <= u64::MAX {
                hours * 3600
            } else {
                u64::MAX as int
            }
        }
}

/// Whether `opts` are what the options in front of position `n` ask for, `at` being where the
/// directories are named.
#[verifier::opaque]
pub open spec fn is_asked_for(
    args: Seq<Seq<char>>,
    n: int,
    opts: OptionsModel,
    at: Seq<int>,
) -> bool {
    &&& opts.apply <==> is_given(args, "--apply"@, n)
    &&& opts.include_untagged <==> is_given(args, "--include-untagged"@, n)
    &&& is_threshold(args, n, opts.max_age)
    &&& places::are_the_places(at, n as nat, |i: int| is_given_at(args, "--root"@, i))
    &&& opts.roots.len() == at.len()
    &&& forall|k: int| 0 <= k < at.len() ==> #[trigger] opts.roots[k] == args[at[k] + 1]
}

/// What is answered where the argument at position `i` cannot be read.
#[verifier::opaque]
pub open spec fn is_answer_to(
    args: Seq<Seq<char>>,
    i: int,
    answer: Result<Option<OptionsModel>, Seq<char>>,
) -> bool {
    if args[i] == "--older-than"@ {
        answer == Err::<Option<OptionsModel>, Seq<char>>(
            if i + 1 < args.len() {
                "--older-than expects whole hours, got "@ + text::debug_form(args[i + 1])
            } else {
                "--older-than needs a value in hours"@
            },
        )
    } else if args[i] == "--root"@ {
        answer == Err::<Option<OptionsModel>, Seq<char>>("--root needs a directory"@)
    } else if args[i] == "-h"@ || args[i] == "--help"@ {
        answer == Ok::<Option<OptionsModel>, Seq<char>>(None)
    } else {
        answer == Err::<Option<OptionsModel>, Seq<char>>(
            "unknown argument "@ + text::debug_form(args[i]),
        )
    }
}

proof fn options_differ()
    ensures
        "--apply"@ != "--include-untagged"@,
        "--apply"@ != "--older-than"@,
        "--apply"@ != "--root"@,
        "--include-untagged"@ != "--older-than"@,
        "--include-untagged"@ != "--root"@,
        "--older-than"@ != "--root"@,
        !takes_value("-h"@),
        !takes_value("--help"@),
        "-h"@ != "--apply"@ && "-h"@ != "--include-untagged"@,
        "--help"@ != "--apply"@ && "--help"@ != "--include-untagged"@,
{
    reveal_strlit("--apply");
    reveal_strlit("--include-untagged");
    reveal_strlit("--older-than");
    reveal_strlit("--root");
    reveal_strlit("-h");
    reveal_strlit("--help");
    assert("--apply"@.len() == 7);
    assert("--include-untagged"@.len() == 18);
    assert("--older-than"@.len() == 12);
    assert("--root"@.len() == 6);
    assert("-h"@.len() == 2);
    assert("--help"@.len() == 6);
    assert("--help"@[2] != "--root"@[2]);
}

proof fn a_value_is_no_option(args: Seq<Seq<char>>, i: int)
    requires
        begins_at(args, i),
        takes_value(args[i]),
    ensures
        !begins_at(args, i + 1),
    decreases i,
{
    reveal_with_fuel(begins_at, 2);
    if begins_at(args, i + 1) {
        assert(begins_at(args, i - 1) && takes_value(args[i - 1]));
        a_value_is_no_option(args, i - 1);
    }
}

proof fn the_next_option_begins(args: Seq<Seq<char>>, i: int, next: int)
    requires
        0 <= i,
        begins_at(args, i),
        next == if takes_value(args[i]) {
            i + 2
        } else {
            i + 1
        },
    ensures
        begins_at(args, next),
        next == i + 2 ==> !begins_at(args, i + 1),
{
    reveal_with_fuel(begins_at, 2);
    if next == i + 2 {
        a_value_is_no_option(args, i);
    }
}

proof fn given_or_here(args: Seq<Seq<char>>, option: Seq<char>, i: int, next: int)
    requires
        0 <= i,
        begins_at(args, i),
        next == i + 1 || (next == i + 2 && !begins_at(args, i + 1)),
    ensures
        is_given(args, option, next) <==> is_given(args, option, i) || args[i] == option,
{
    if is_given(args, option, i) {
        let j = choose|j: int| 0 <= j < i && #[trigger] is_given_at(args, option, j);
        assert(is_given_at(args, option, j));
    }
    if args[i] == option {
        assert(is_given_at(args, option, i));
    }
    if is_given(args, option, next) {
        let j = choose|j: int| 0 <= j < next && #[trigger] is_given_at(args, option, j);
        if j < i {
            assert(is_given_at(args, option, j));
        }
    }
}

proof fn threshold_or_here(
    args: Seq<Seq<char>>,
    i: int,
    next: int,
    age: u64,
    now: u64,
)
    requires
        0 <= i,
        begins_at(args, i),
        next == i + 1 || (next == i + 2 && !begins_at(args, i + 1)),
        is_threshold(args, i, age),
        args[i] == "--older-than"@ ==> now == if whole_number(args[i + 1])->0 * 3600 <= u64::MAX {
            whole_number(args[i + 1])->0 * 3600
        } else {
            u64::MAX as int
        },
        args[i] != "--older-than"@ ==> now == age,
    ensures
        is_threshold(args, next, now),
{
    let option = "--older-than"@;
    given_or_here(args, option, i, next);
    assert forall|j: int|
        0 <= j < next && #[trigger] is_given_at(args, option, j) && (forall|k: int|
            j < k < next ==> !#[trigger] is_given_at(args, option, k)) implies {
        let hours = whole_number(args[j + 1])->0;
        now == if hours * 3600 <= u64::MAX {
            hours * 3600
        } else {
            u64::MAX as int
        }
    } by {
        if args[i] == option {
            assert(is_given_at(args, option, i));
            assert(j == i);
        } else {
            assert(j < i);
            assert(is_given_at(args, option, j));
        }
    }
}

proof fn roots_and_here(
    args: Seq<Seq<char>>,
    i: int,
    next: int,
    roots: Seq<Seq<char>>,
    now: Seq<Seq<char>>,
    at: Seq<int>,
) -> (more: Seq<int>)
    requires
        0 <= i,
        begins_at(args, i),
        next == i + 1 || (next == i + 2 && !begins_at(args, i + 1)),
        places::are_the_places(at, i as nat, |j: int| is_given_at(args, "--root"@, j)),
        roots.len() == at.len(),
        forall|k: int| 0 <= k < at.len() ==> #[trigger] roots[k] == args[at[k] + 1],
        args[i] == "--root"@ ==> now == roots.push(args[i + 1]),
        args[i] != "--root"@ ==> now == roots,
    ensures
        places::are_the_places(more, next as nat, |j: int| is_given_at(args, "--root"@, j)),
        now.len() == more.len(),
        forall|k: int| 0 <= k < more.len() ==> #[trigger] now[k] == args[more[k] + 1],
{
    let wanted = |j: int| is_given_at(args, "--root"@, j);
    let more = places::places_of_a_longer_list(at, i as nat, wanted);
    assert(wanted(i) == (args[i] == "--root"@));
    assert forall|k: int| 0 <= k < more.len() implies #[trigger] now[k] == args[more[k] + 1] by {
        if k < at.len() {
            assert(now[k] == roots[k]);
            assert(more[k] == at[k]);
        }
    }
    if next == i + 2 {
        assert(!wanted(i + 1));
        places::places_of_a_longer_list(more, (i + 1) as nat, wanted)
    } else {
        more
    }
}

proof fn one_more_option(
    args: Seq<Seq<char>>,
    i: int,
    next: int,
    opts: OptionsModel,
    now: OptionsModel,
    at: Seq<int>,
) -> (more: Seq<int>)
    requires
        0 <= i < args.len(),
        begins_at(args, i),
        is_asked_for(args, i, opts, at),
        next == if takes_value(args[i]) {
            i + 2
        } else {
            i + 1
        },
        now.apply == (opts.apply || args[i] == "--apply"@),
        now.include_untagged == (opts.include_untagged || args[i] == "--include-untagged"@),
        args[i] == "--older-than"@ ==> now.max_age == if whole_number(args[i + 1])->0 * 3600
            <= u64::MAX {
            whole_number(args[i + 1])->0 * 3600
        } else {
            u64::MAX as int
        },
        args[i] != "--older-than"@ ==> now.max_age == opts.max_age,
        args[i] == "--root"@ ==> now.roots == opts.roots.push(args[i + 1]),
        args[i] != "--root"@ ==> now.roots == opts.roots,
    ensures
        begins_at(args, next),
        is_asked_for(args, next, now, more),
        next == i + 2 ==> !begins_at(args, i + 1),
{
    reveal(is_asked_for);
    the_next_option_begins(args, i, next);
    given_or_here(args, "--apply"@, i, next);
    given_or_here(args, "--include-untagged"@, i, next);
    threshold_or_here(args, i, next, opts.max_age, now.max_age);
    roots_and_here(args, i, next, opts.roots, now.roots, at)
}

proof fn a_readable_option_is_read(args: Seq<Seq<char>>, i: int, opts: OptionsModel) -> (r: (
    int,
    OptionsModel,
))
    requires
        0 <= i < args.len(),
        is_readable_at(args, i),
    ensures
        r.0 == if takes_value(args[i]) {
            i + 2
        } else {
            i + 1
        },
        i < r.0 <= args.len(),
        parsed(args.skip(i), opts) == parsed(args.skip(r.0), r.1),
        r.1.apply == (opts.apply || args[i] == "--apply"@),
        r.1.include_untagged == (opts.include_untagged || args[i] == "--include-untagged"@),
        args[i] == "--older-than"@ ==> r.1.max_age == if whole_number(args[i + 1])->0 * 3600
            <= u64::MAX {
            whole_number(args[i + 1])->0 * 3600
        } else {
            u64::MAX as int
        },
        args[i] != "--older-than"@ ==> r.1.max_age == opts.max_age,
        args[i] == "--root"@ ==> r.1.roots == opts.roots.push(args[i + 1]),
        args[i] != "--root"@ ==> r.1.roots == opts.roots,
{
    options_differ();
    let rest = args.skip(i);
    let here = args[i];
    assert(rest[0] == here);
    let next = if takes_value(here) {
        i + 2
    } else {
        i + 1
    };
    if takes_value(here) {
        assert(rest[1] == args[i + 1]);
    }
    assert(rest.skip(next - i) =~= args.skip(next));
    if here == "--apply"@ {
        (next, OptionsModel { apply: true, ..opts })
    } else if here == "--include-untagged"@ {
        (next, OptionsModel { include_untagged: true, ..opts })
    } else if here == "--older-than"@ {
        let hours = whole_number(args[i + 1])->0;
        (next, OptionsModel { max_age: hours_in_seconds(hours as nat), ..opts })
    } else {
        (next, OptionsModel { roots: opts.roots.push(args[i + 1]), ..opts })
    }
}

proof fn an_unreadable_option_is_answered(args: Seq<Seq<char>>, i: int, opts: OptionsModel)
    requires
        0 <= i < args.len(),
        !is_readable_at(args, i),
    ensures
        is_answer_to(args, i, parsed(args.skip(i), opts)),
{
    reveal(is_answer_to);
    options_differ();
    let rest = args.skip(i);
    assert(rest[0] == args[i]);
    if i + 1 < args.len() {
        assert(rest[1] == args[i + 1]);
    }
}

proof fn reading_on(args: Seq<Seq<char>>, i: int, opts: OptionsModel, at: Seq<int>) -> (more: Seq<
    int,
>)
    requires
        0 <= i <= args.len(),
        begins_at(args, i),
        is_asked_for(args, i, opts, at),
    ensures
        all_readable(args, i, args.len() as int) ==> {
            let r = parsed(args.skip(i), opts);
            r is Ok && r->Ok_0 is Some && is_asked_for(
                args,
                args.len() as int,
                r->Ok_0->0,
                more,
            )
        },
        forall|j: int|
            i <= j < args.len() && #[trigger] begins_at(args, j) && !is_readable_at(args, j)
                && all_readable(args, i, j) ==> is_answer_to(
                args,
                j,
                parsed(args.skip(i), opts),
            ),
    decreases args.len() - i,
{
    if i == args.len() {
        assert(parsed(args.skip(i), opts) == Ok::<Option<OptionsModel>, Seq<char>>(Some(opts)));
        at
    } else if is_readable_at(args, i) {
        let (next, now) = a_readable_option_is_read(args, i, opts);
        let more = one_more_option(args, i, next, opts, now, at);
        let most = reading_on(args, next, now, more);
        assert forall|j: int|
            i <= j < args.len() && #[trigger] begins_at(args, j) && !is_readable_at(args, j)
                && all_readable(args, i, j) implies is_answer_to(
            args,
            j,
            parsed(args.skip(i), opts),
        ) by {
            assert(j >= next);
            assert(all_readable(args, next, j));
        }
        most
    } else {
        an_unreadable_option_is_answered(args, i, opts);
        assert forall|j: int|
            i <= j < args.len() && #[trigger] begins_at(args, j) && !is_readable_at(args, j)
                && all_readable(args, i, j) implies is_answer_to(
            args,
            j,
            parsed(args.skip(i), opts),
        ) by {
            assert(j == i);
        }
        at
    }
}

/// Each argument sets its own option and leaves the others alone. The arguments are accepted
/// exactly where every option in them can be read; and then what they ask for does not depend
/// on the order of different options: deletion and the shared prefix are asked for exactly
/// where their flags are given, the threshold is that of the last `--older-than` wherever it
/// stands, six hours without one, and the directories are those that `--root` names, in order.
pub proof fn each_argument_sets_its_own_option(args: Seq<Seq<char>>) -> (at: Seq<int>)
    ensures
        ({
            let r = parsed(args, default_options());
            &&& r is Ok && r->Ok_0 is Some <==> all_readable(args, 0, args.len() as int)
            &&& r is Ok && r->Ok_0 is Some ==> is_asked_for(
                args,
                args.len() as int,
                r->Ok_0->0,
                at,
            )
        }),
{
    let none = Seq::<int>::empty();
    assert(args.skip(0) =~= args);
    assert(begins_at(args, 0)) by {
        reveal(begins_at);
    }
    assert(is_asked_for(args, 0, default_options(), none)) by {
        reveal(is_asked_for);
    }
    let at = reading_on(args, 0, default_options(), none);
    if !all_readable(args, 0, args.len() as int) {
        reveal(is_answer_to);
        let j = first_unreadable(args, args.len() as int);
        assert(is_answer_to(args, j, parsed(args, default_options())));
    }
    at
}

/// The first argument that cannot be read decides the answer, whatever stands behind it: a
/// request for help gets the help text, and any other one a complaint that names what is wrong.
pub proof fn the_first_argument_that_cannot_be_read_decides(args: Seq<Seq<char>>, i: int)
    requires
        0 <= i < args.len(),
        begins_at(args, i),
        !is_readable_at(args, i),
        all_readable(args, 0, i),
    ensures
        is_answer_to(args, i, parsed(args, default_options())),
{
    let none = Seq::<int>::empty();
    assert(args.skip(0) =~= args);
    assert(begins_at(args, 0)) by {
        reveal(begins_at);
    }
    assert(is_asked_for(args, 0, default_options(), none)) by {
        reveal(is_asked_for);
    }
    let at = reading_on(args, 0, default_options(), none);
}

proof fn first_unreadable(args: Seq<Seq<char>>, n: int) -> (i: int)
    requires
        0 <= n <= args.len(),
        !all_readable(args, 0, n),
    ensures
        0 <= i < n,
        begins_at(args, i),
        !is_readable_at(args, i),
        all_readable(args, 0, i),
    decreases n,
{
    if n > 0 && !all_readable(args, 0, n - 1) {
        first_unreadable(args, n - 1)
    } else {
        n - 1
    }
}

/// A whole number is read as what it is, with or without a plus sign, up to the largest `u64`;
/// and nothing but digits, at least one, is read as a number.
pub proof fn numbers_are_read_as_they_are_written(n: u64, raw: Seq<char>)
    ensures
        whole_number(text::decimal(n as nat)) == Some(n),
        whole_number(seq!['+'] + text::decimal(n as nat)) == Some(n),
        whole_number(raw) matches Some(value) ==> exists|digits: Seq<char>|
            #[trigger] text::all_digits(digits) && digits.len() > 0 && (raw == digits || raw
                == seq!['+'] + digits) && text::decimal_value(digits) == value,
        text::all_digits(raw) && text::decimal_value(raw) > u64::MAX ==> whole_number(raw) is None,
{
    let digits = text::decimal(n as nat);
    text::decimal_reads_back(n as nat);
    assert(text::is_digit(digits[0]));
    assert((seq!['+'] + digits).drop_first() =~= digits);
    if raw.len() > 0 && raw[0] == '+' {
        assert(raw =~= seq!['+'] + raw.drop_first());
        assert(!text::is_digit(raw[0]));
    }
    assert(number_digits(raw) == raw || raw == seq!['+'] + number_digits(raw));
}

/// Named directories are scanned with the shared prefix exactly where it was asked for, and so
/// is the system's directory where none is named.
pub proof fn the_shared_prefix_goes_where_it_was_asked_for(
    opts: OptionsModel,
    private_parent: Seq<char>,
    system_tmp: Seq<char>,
)
    ensures
        ({
            let roots = roots_for(opts, private_parent, system_tmp);
            &&& opts.roots.len() > 0 ==> forall|i: int|
                0 <= i < roots.len() ==> (#[trigger] roots[i]).1 == opts.include_untagged
            &&& opts.roots.len() == 0 ==> roots[1].1 == opts.include_untagged
        }),
{
}

/// Every directory that is there is scanned: under the first of the names that resolve to it.
pub proof fn every_present_directory_is_scanned(
    roots: Seq<(Seq<char>, bool)>,
    resolved: Seq<Option<Seq<char>>>,
    i: int,
)
    requires
        0 <= i < roots.len() <= resolved.len(),
        resolved[i] is Some,
        forall|j: int| 0 <= j < i ==> #[trigger] resolved[j] != resolved[i],
    ensures
        present_once(roots, resolved).contains(roots[i]),
    decreases roots.len(),
{
    let all = present_once(roots, resolved);
    let front = present_once(roots.drop_last(), resolved);
    let n = roots.len() - 1;
    if i == n {
        assert(!seen_before(resolved, n, resolved[n]->0));
        assert(all[front.len() as int] == roots[i]);
    } else {
        every_present_directory_is_scanned(roots.drop_last(), resolved, i);
        assert(roots.drop_last()[i] == roots[i]);
        let k = choose|k: int| 0 <= k < front.len() && front[k] == roots[i];
        assert(all[k] == roots[i]);
    }
}

/// The note names the directory and shows how to have it scanned: two directories that are
/// shown differently have different notes, and each note ends with the directory behind
/// `--root`.
pub proof fn the_note_names_its_directory(base: PathModel)
    ensures
        ({
            let start = "note: DAD_E2E_TMPDIR is set to "@ + base.shown();
            let end = " --root "@ + base.shown();
            let note = note_on(base);
            &&& note.len() >= start.len() + end.len()
            &&& note.take(start.len() as int) == start
            &&& note.skip(note.len() - end.len()) == end
        }),
{
    reveal_strlit(" --root ");
    reveal_strlit(
        ", which is not scanned unless it is named. To reap it: cargo xtask clean-e2e-tmp --root ",
    );
    let start = "note: DAD_E2E_TMPDIR is set to "@ + base.shown();
    let end = " --root "@ + base.shown();
    let note = note_on(base);
    assert(note.take(start.len() as int) =~= start);
    assert(note.skip(note.len() - end.len()) =~= end);
}

/// A directory counts as named exactly where one of the named ones is the same path: none is
/// where nothing was named, and each is in its own spelling. On a host with `/` paths are the
/// same whose components are.
pub proof fn a_directory_is_named_in_any_spelling(opts: OptionsModel, base: PathModel)
    ensures
        opts.roots.len() == 0 ==> !is_named(opts, base),
        opts.roots.contains(base.text) ==> is_named(opts, base),
        base.separator == '/' ==> (is_named(opts, base) <==> exists|i: int|
            0 <= i < opts.roots.len() && slash::components(#[trigger] opts.roots[i])
                == slash::components(base.text)),
{
    assert(base.with_text(base.text) == base);
    if opts.roots.contains(base.text) {
        let k = choose|k: int| 0 <= k < opts.roots.len() && opts.roots[k] == base.text;
        assert(base.with_text(opts.roots[k]).key() == base.key());
    }
    if base.separator == '/' {
        assert forall|i: int| 0 <= i < opts.roots.len() implies (base.with_text(
            #[trigger] opts.roots[i],
        ).key() == base.key() <==> slash::components(opts.roots[i]) == slash::components(
            base.text,
        )) by {
            path::paths_are_the_same_by_their_components(
                base.with_text(opts.roots[i]),
                base,
                Seq::empty(),
            );
        }
    }
}

} // verus!
