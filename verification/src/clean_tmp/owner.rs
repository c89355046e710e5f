//! Whose directory it is, and whether it may go.
//!
//! A root of the test harness is named `dad-tests-<pid>-<random>` after the process that
//! created it, so the name answers "is anyone still using this?" directly. The process
//! decides wherever it can, and age decides only where it cannot:
//!
//! - dead process: reap, at any age;
//! - live process: keep, at any age;
//! - no usable process id: the age rule decides.

use crate::text;
use vstd::prelude::*;

verus! {

/// Directory names that begin like this belong to the test harness: its roots.
pub const PID_TAGGED_PREFIX: &'static str = "dad-tests-";

/// The lock directories of an earlier harness. They carry no process id.
pub const LOCK_PREFIX: &'static str = "dot-agent-deck-test-lock-";

/// The default prefix of the `tempfile` crate, shared with every other Rust program on
/// the machine, so it is considered on request only.
pub const UNTAGGED_PREFIX: &'static str = ".tmp";

/// What the process id in a root's name says about who owns the root.
#[derive(Debug, Clone, Copy, PartialEq, Eq, Structural)]
pub enum Owner {
    /// No live process has the id: the root is abandoned.
    Dead,
    /// A live process has the id. The root is kept, whatever its timestamps say.
    Live,
    /// No process id to go by, or no way to ask about it.
    Unknown,
}

/// Why a root is reaped or kept.
#[derive(Debug, Clone, Copy, PartialEq, Eq, Structural)]
pub enum Reason {
    /// The owning process is gone.
    DeadPid,
    /// The owning process is still running.
    LivePid,
    /// There was no usable process id, so the age rule decided.
    UntaggedAge,
}

/// The decision on one directory.
#[derive(Debug, Clone, Copy, PartialEq, Eq, Structural)]
pub struct Verdict {
    pub reap: bool,
    pub reason: Reason,
}

/// A way to ask whether a process is running.
pub trait ProcessProbe {
    /// `Some(true)` alive, `Some(false)` dead, `None` where this platform cannot tell.
    fn is_alive(&self, pid: i32) -> Option<bool>;
}

/// Whether a directory of this name may be considered at all.
pub open spec fn owned(name: Seq<char>, include_untagged: bool) -> bool {
    ||| PID_TAGGED_PREFIX@.is_prefix_of(name)
    ||| LOCK_PREFIX@.is_prefix_of(name)
    ||| include_untagged && UNTAGGED_PREFIX@.is_prefix_of(name)
}

/// Whether a directory of this name may be considered at all: the two prefixes of the
/// harness always, the shared one on request.
pub fn is_owned(name: &str, include_untagged: bool) -> (r: bool)
    ensures
        r == owned(name@, include_untagged),
{
    if text::begins_with(name, PID_TAGGED_PREFIX) || text::begins_with(name, LOCK_PREFIX) {
        return true;
    }
    include_untagged && text::begins_with(name, UNTAGGED_PREFIX)
}

/// The process id field of a root's name: what stands between the prefix and the next
/// hyphen.
pub open spec fn pid_field(name: Seq<char>) -> Seq<char> {
    let rest = name.skip(PID_TAGGED_PREFIX@.len() as int);
    rest.take(text::run_before(rest, '-') as int)
}

/// The process id in a name of the form `dad-tests-<pid>-<random>`.
pub open spec fn pid_of(name: Seq<char>) -> Option<i32> {
    let rest = name.skip(PID_TAGGED_PREFIX@.len() as int);
    let field = pid_field(name);
    if PID_TAGGED_PREFIX@.is_prefix_of(name) && text::run_before(rest, '-') < rest.len()
        && field.len() > 0 && text::all_digits(field) && 0 < text::decimal_value(field)
        <= i32::MAX {
        Some(text::decimal_value(field) as i32)
    } else {
        None
    }
}

/// The process id out of a `dad-tests-<pid>-<random>` name; `None` for every other shape, one
/// that ends behind the id among them.
/// Zero is never a process, and a number too large for a process id is no id either.
pub fn parse_pid(name: &str) -> (r: Option<i32>)
    ensures
        r == pid_of(name@),
{
    if !text::begins_with(name, PID_TAGGED_PREFIX) {
        return None;
    }
    let chars = text::chars_of(name);
    let from: usize = text::chars_of(PID_TAGGED_PREFIX).len();
    let to = text::find_char(chars.as_slice(), from, '-');
    if to == chars.len() {
        return None;
    }
    proof {
        assert(pid_field(name@) =~= chars@.subrange(from as int, to as int));
    }
    match text::parse_digits(chars.as_slice(), from, to, 2147483647) {
        Some(value) => {
            if value > 0 {
                Some(value as i32)
            } else {
                None
            }
        },
        None => None,
    }
}

/// The owner of a root, given what was answered about the process in its name.
pub open spec fn owner_given(name: Seq<char>, alive: Option<bool>) -> Owner {
    match (pid_of(name), alive) {
        (Some(_), Some(false)) => Owner::Dead,
        (Some(_), Some(true)) => Owner::Live,
        _ => Owner::Unknown,
    }
}

/// Classify a root from its name and the answer about the process in it. No timestamp of
/// any kind takes part.
pub fn owner_from_answer(name: &str, alive: Option<bool>) -> (r: Owner)
    ensures
        r == owner_given(name@, alive),
        r == Owner::Live <==> pid_of(name@) is Some && alive == Some(true),
        r == Owner::Dead <==> pid_of(name@) is Some && alive == Some(false),
{
    match parse_pid(name) {
        None => Owner::Unknown,
        Some(_) => match alive {
            Some(false) => Owner::Dead,
            Some(true) => Owner::Live,
            None => Owner::Unknown,
        },
    }
}

/// Whether `owner` is the owner of `name` for an answer that `probe` may give about the
/// process in the name.
pub open spec fn probed_owner<P: ProcessProbe>(name: Seq<char>, probe: &P, owner: Owner) -> bool {
    match pid_of(name) {
        None => owner == Owner::Unknown,
        Some(pid) => exists|alive: Option<bool>| #[trigger]
            call_ensures(P::is_alive, (probe, pid), alive) && owner == owner_given(name, alive),
    }
}

/// Classify a root by asking `probe` about the process in its name.
pub fn owner_of<P: ProcessProbe>(name: &str, probe: &P) -> (r: Owner)
    ensures
        probed_owner(name@, probe, r),
        r == Owner::Live ==> pid_of(name@) is Some && call_ensures(
            P::is_alive,
            (probe, pid_of(name@)->0),
            Some(true),
        ),
        r == Owner::Dead ==> pid_of(name@) is Some && call_ensures(
            P::is_alive,
            (probe, pid_of(name@)->0),
            Some(false),
        ),
{
    match parse_pid(name) {
        None => Owner::Unknown,
        Some(pid) => {
            let alive = probe.is_alive(pid);
            owner_from_answer(name, alive)
        },
    }
}

/// What `kill(pid, 0)` says about a process. Only "no such process" means dead: any other
/// refusal comes from a process that exists.
pub open spec fn liveness(delivered: bool, errno: Option<i32>, no_such_process: i32) -> Option<
    bool,
> {
    Some(delivered || errno != Some(no_such_process))
}

/// Read the outcome of `kill(pid, 0)`: whether the call succeeded, and the error number
/// where it did not. `no_such_process` is the platform's `ESRCH`.
pub fn pid_is_alive(delivered: bool, errno: Option<i32>, no_such_process: i32) -> (r: Option<bool>)
    ensures
        r == liveness(delivered, errno, no_such_process),
{
    if delivered {
        return Some(true);
    }
    match errno {
        Some(number) => Some(number != no_such_process),
        None => Some(true),
    }
}

/// The decision for an owner and an age, both in seconds.
pub open spec fn verdict_for(owner: Owner, age: u64, max_age: u64) -> Verdict {
    match owner {
        Owner::Dead => Verdict { reap: true, reason: Reason::DeadPid },
        Owner::Live => Verdict { reap: false, reason: Reason::LivePid },
        Owner::Unknown => Verdict { reap: age >= max_age, reason: Reason::UntaggedAge },
    }
}

/// The whole reap-or-keep decision.
pub fn classify(owner: Owner, age: u64, max_age: u64) -> (r: Verdict)
    ensures
        r == verdict_for(owner, age, max_age),
{
    match owner {
        Owner::Dead => Verdict { reap: true, reason: Reason::DeadPid },
        Owner::Live => Verdict { reap: false, reason: Reason::LivePid },
        Owner::Unknown => Verdict { reap: age >= max_age, reason: Reason::UntaggedAge },
    }
}

// ---------------------------------------------------------------------------
// Laws
// ---------------------------------------------------------------------------

/// The process id that a root was named after is read back out of its name.
pub proof fn roots_carry_their_pid(pid: i32, random: Seq<char>)
    requires
        pid > 0,
    ensures
        pid_of(PID_TAGGED_PREFIX@ + text::decimal(pid as nat) + seq!['-'] + random) == Some(pid),
{
    let digits = text::decimal(pid as nat);
    let name = PID_TAGGED_PREFIX@ + digits + seq!['-'] + random;
    text::decimal_reads_back(pid as nat);
    assert forall|i: int| 0 <= i < digits.len() implies #[trigger] digits[i] != '-' by {
        assert(text::is_digit(digits[i]));
    }
    let rest = digits + seq!['-'] + random;
    text::run_before_stops(rest, '-');
    let n = text::run_before(rest, '-');
    assert(rest[digits.len() as int] == '-');
    if n < digits.len() {
        assert(rest[n as int] == digits[n as int]);
    }
    assert(name.skip(PID_TAGGED_PREFIX@.len() as int) =~= digits + seq!['-'] + random);
    assert(pid_field(name) =~= digits);
    assert(name.subrange(0, PID_TAGGED_PREFIX@.len() as int) =~= PID_TAGGED_PREFIX@);
}

/// Only a name with the prefix of the roots carries a process id, and the id is never zero
/// or less. Lock directories and untagged ones carry none.
pub proof fn only_roots_carry_a_pid(name: Seq<char>)
    ensures
        pid_of(name) matches Some(pid) ==> pid > 0 && PID_TAGGED_PREFIX@.is_prefix_of(name),
        LOCK_PREFIX@.is_prefix_of(name) ==> pid_of(name) is None,
        UNTAGGED_PREFIX@.is_prefix_of(name) ==> pid_of(name) is None,
{
    reveal_strlit("dad-tests-");
    reveal_strlit("dot-agent-deck-test-lock-");
    reveal_strlit(".tmp");
    if PID_TAGGED_PREFIX@.is_prefix_of(name) {
        assert(name[1] == PID_TAGGED_PREFIX@[1]);
        assert(name[0] == PID_TAGGED_PREFIX@[0]);
        if LOCK_PREFIX@.is_prefix_of(name) {
            assert(name[1] == LOCK_PREFIX@[1]);
        }
        if UNTAGGED_PREFIX@.is_prefix_of(name) {
            assert(name[0] == UNTAGGED_PREFIX@[0]);
        }
    }
}

/// Asking for the shared prefix adds names with that prefix, and nothing else.
pub proof fn the_shared_prefix_is_opt_in(name: Seq<char>)
    ensures
        owned(name, false) ==> owned(name, true),
        owned(name, true) ==> owned(name, false) || UNTAGGED_PREFIX@.is_prefix_of(name),
        UNTAGGED_PREFIX@.is_prefix_of(name) ==> !owned(name, false),
{
    reveal_strlit("dad-tests-");
    reveal_strlit("dot-agent-deck-test-lock-");
    reveal_strlit(".tmp");
    if UNTAGGED_PREFIX@.is_prefix_of(name) {
        assert(name[0] == UNTAGGED_PREFIX@[0]);
        if PID_TAGGED_PREFIX@.is_prefix_of(name) {
            assert(name[0] == PID_TAGGED_PREFIX@[0]);
        }
        if LOCK_PREFIX@.is_prefix_of(name) {
            assert(name[0] == LOCK_PREFIX@[0]);
        }
    }
}

/// A dead owner's directory goes and a live owner's stays at any age and for any
/// threshold; age decides exactly where the owner is unknown, and there a higher threshold
/// reaps no more.
pub proof fn ownership_decides_and_age_only_where_it_cannot(owner: Owner, age: u64, max_age: u64)
    ensures
        owner == Owner::Dead ==> verdict_for(owner, age, max_age).reap,
        owner == Owner::Live ==> !verdict_for(owner, age, max_age).reap,
        owner == Owner::Unknown ==> verdict_for(owner, age, max_age).reap == (age >= max_age),
        verdict_for(owner, age, max_age).reason == Reason::UntaggedAge <==> owner
            == Owner::Unknown,
        forall|higher: u64|
            higher >= max_age && #[trigger] verdict_for(owner, age, higher).reap ==> verdict_for(
                owner,
                age,
                max_age,
            ).reap,
{
}

/// A root is named `dad-tests-`, a number, a hyphen and anything: the number is its process id,
/// unless it is zero or larger than any process id.
pub proof fn the_number_in_a_root_is_its_process(digits: Seq<char>, random: Seq<char>)
    requires
        digits.len() > 0,
        text::all_digits(digits),
    ensures
        ({
            let pid = pid_of("dad-tests-"@ + digits + seq!['-'] + random);
            let number = text::decimal_value(digits);
            &&& 0 < number <= 2_147_483_647 ==> pid is Some && pid->0 == number
            &&& number == 0 || number > 2_147_483_647 ==> pid is None
        }),
{
    let prefix = "dad-tests-"@;
    let rest = digits + seq!['-'] + random;
    let name = prefix + digits + seq!['-'] + random;
    assert(name.skip(prefix.len() as int) =~= rest);
    text::run_before_stops(rest, '-');
    let n = text::run_before(rest, '-') as int;
    assert(rest[digits.len() as int] == '-');
    if n < digits.len() {
        assert(text::is_digit(digits[n]));
        assert(rest[n] == digits[n]);
    }
    assert(pid_field(name) =~= digits);
    assert(name.subrange(0, prefix.len() as int) =~= prefix);
}

/// A name that carries a process id is of that shape: it can be taken apart into `dad-tests-`,
/// the digits of the id, a hyphen and the rest.
pub proof fn a_process_id_stands_between_two_hyphens(name: Seq<char>) -> (parts: (
    Seq<char>,
    Seq<char>,
))
    requires
        pid_of(name) is Some,
    ensures
        name == "dad-tests-"@ + parts.0 + seq!['-'] + parts.1,
        parts.0.len() > 0,
        text::all_digits(parts.0),
        text::decimal_value(parts.0) == pid_of(name)->0,
        pid_of(name)->0 > 0,
{
    let prefix = "dad-tests-"@;
    let rest = name.skip(prefix.len() as int);
    text::run_before_stops(rest, '-');
    let n = text::run_before(rest, '-') as int;
    let digits = pid_field(name);
    let random = rest.skip(n + 1);
    assert(name.subrange(0, prefix.len() as int) =~= prefix);
    assert(rest =~= digits + seq!['-'] + random);
    assert(name =~= prefix + digits + seq!['-'] + random);
    (digits, random)
}

/// The answer about the process settles whose root it is, whatever the process id: alive is
/// live, dead is dead, and without an answer it stays unknown. So it does without an id.
pub proof fn an_answer_settles_whose_root_it_is(name: Seq<char>, alive: Option<bool>)
    ensures
        pid_of(name) is Some ==> {
            &&& owner_given(name, Some(true)) == Owner::Live
            &&& owner_given(name, Some(false)) == Owner::Dead
            &&& owner_given(name, None) == Owner::Unknown
        },
        pid_of(name) is None ==> owner_given(name, alive) == Owner::Unknown,
{
}

/// A root that was named after a process is live while that process runs and dead once it is
/// gone, for every process id.
pub proof fn a_root_lives_with_its_process(pid: i32, random: Seq<char>)
    requires
        pid > 0,
    ensures
        ({
            let name = "dad-tests-"@ + text::decimal(pid as nat) + seq!['-'] + random;
            &&& owner_given(name, Some(true)) == Owner::Live
            &&& owner_given(name, Some(false)) == Owner::Dead
            &&& owner_given(name, None) == Owner::Unknown
        }),
{
    roots_carry_their_pid(pid, random);
}

/// Where every answer that the probe may give about the process in a name is the same, that
/// answer settles whose root it is; and no other process is asked about.
pub proof fn a_probe_settles_whose_root_it_is<P: ProcessProbe>(
    name: Seq<char>,
    probe: &P,
    owner: Owner,
)
    requires
        probed_owner(name, probe, owner),
    ensures
        pid_of(name) is None ==> owner == Owner::Unknown,
        pid_of(name) matches Some(pid) ==> {
            &&& (forall|a: Option<bool>|
                call_ensures(P::is_alive, (probe, pid), a) ==> a == Some(true)) ==> owner
                == Owner::Live
            &&& (forall|a: Option<bool>|
                call_ensures(P::is_alive, (probe, pid), a) ==> a == Some(false)) ==> owner
                == Owner::Dead
            &&& (forall|a: Option<bool>|
                call_ensures(P::is_alive, (probe, pid), a) ==> a is None) ==> owner
                == Owner::Unknown
        },
{
}

/// The names that are considered: `dad-tests-` and `dot-agent-deck-test-lock-` with anything
/// behind them always, `.tmp` with anything behind it exactly on request, and no other name.
pub proof fn names_are_considered_by_their_beginning(
    name: Seq<char>,
    tail: Seq<char>,
    include_untagged: bool,
)
    ensures
        owned("dad-tests-"@ + tail, include_untagged),
        owned("dot-agent-deck-test-lock-"@ + tail, include_untagged),
        owned(".tmp"@ + tail, include_untagged) == include_untagged,
        owned(name, include_untagged) ==> exists|rest: Seq<char>|
            name == #[trigger] ("dad-tests-"@ + rest) || name == "dot-agent-deck-test-lock-"@ + rest
                || (include_untagged && name == ".tmp"@ + rest),
{
    let a = "dad-tests-"@;
    let b = "dot-agent-deck-test-lock-"@;
    let c = ".tmp"@;
    assert((a + tail).subrange(0, a.len() as int) =~= a);
    assert((b + tail).subrange(0, b.len() as int) =~= b);
    assert((c + tail).subrange(0, c.len() as int) =~= c);
    the_shared_prefix_is_opt_in(c + tail);
    if owned(name, include_untagged) {
        if a.is_prefix_of(name) {
            assert(name =~= a + name.skip(a.len() as int));
        } else if b.is_prefix_of(name) {
            let rest = name.skip(b.len() as int);
            assert(name =~= b + rest);
            let witness = a + rest;
        } else {
            let rest = name.skip(c.len() as int);
            assert(name =~= c + rest);
            let witness = a + rest;
        }
    }
}

/// Only "no such process" means dead: a signal that could be sent, another refusal, and one
/// without a number all come from a process that is there.
pub proof fn only_no_such_process_is_dead(errno: Option<i32>, no_such_process: i32)
    ensures
        liveness(true, errno, no_such_process) == Some(true),
        liveness(false, Some(no_such_process), no_such_process) == Some(false),
        errno != Some(no_such_process) ==> liveness(false, errno, no_such_process) == Some(true),
{
}

/// The reason that is given for a decision is what decided it: the dead process, the live one,
/// or the age, which reaps from the threshold on.
pub proof fn the_reason_is_what_decided(age: u64, max_age: u64)
    ensures
        verdict_for(Owner::Dead, age, max_age) == (Verdict { reap: true, reason: Reason::DeadPid }),
        verdict_for(Owner::Live, age, max_age) == (Verdict {
            reap: false,
            reason: Reason::LivePid,
        }),
        verdict_for(Owner::Unknown, age, max_age).reason == Reason::UntaggedAge,
        age >= max_age ==> verdict_for(Owner::Unknown, age, max_age).reap,
        age < max_age ==> !verdict_for(Owner::Unknown, age, max_age).reap,
{
}

} // verus!
