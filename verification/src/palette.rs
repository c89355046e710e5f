//! The colors of the user interface: one for each status of a session, and one accent.
//!
//! Both places that show a session, the card in the deck and the pane, take the color of its
//! border from here, so a status looks the same in both. All colors are named ANSI colors,
//! which a terminal theme can remap.

use vstd::prelude::*;

verus! {

/// A named ANSI color.
#[derive(Debug, Clone, Copy, PartialEq, Eq, Structural)]
pub enum Color {
    Red,
    Green,
    Yellow,
    Blue,
    Cyan,
    DarkGray,
}

/// What the agent of a session is doing.
#[derive(Debug, Clone, Copy, PartialEq, Eq, Structural)]
pub enum SessionStatus {
    /// Running a tool or producing output.
    Working,
    /// Reasoning before acting.
    Thinking,
    /// Making room in its context.
    Compacting,
    /// In need of an answer to go on.
    WaitingForInput,
    /// Stopped by a failure.
    Error,
    /// Doing nothing.
    Idle,
    /// A status that this version does not know.
    Unknown,
}

/// The agent is running a tool or producing output.
pub const STATUS_WORKING: Color = Color::Green;

/// The agent is reasoning before acting.
pub const STATUS_THINKING: Color = Color::Blue;

/// The agent needs an answer to go on.
pub const STATUS_WAITING: Color = Color::Yellow;

/// The agent hit a failure.
pub const STATUS_ERROR: Color = Color::Red;

/// Nothing is going on.
pub const STATUS_IDLE: Color = Color::DarkGray;

/// The pane that keystrokes reach. There is no color for a selected card: selection is shown
/// by the shape of its border.
pub const FOCUSED: Color = Color::Cyan;

/// The color of a status. Compacting shares the color of thinking, and an unknown status
/// that of an idle one, so that it is never taken for an active one.
pub open spec fn color_of(status: SessionStatus) -> Color {
    match status {
        SessionStatus::Working => STATUS_WORKING,
        SessionStatus::Thinking | SessionStatus::Compacting => STATUS_THINKING,
        SessionStatus::WaitingForInput => STATUS_WAITING,
        SessionStatus::Error => STATUS_ERROR,
        SessionStatus::Idle | SessionStatus::Unknown => STATUS_IDLE,
    }
}

/// The rank of a status: error, then waiting, working, thinking, idle. The lowest wins.
pub open spec fn rank_of(status: SessionStatus) -> u8 {
    match status {
        SessionStatus::Error => 0,
        SessionStatus::WaitingForInput => 1,
        SessionStatus::Working => 2,
        SessionStatus::Thinking | SessionStatus::Compacting => 3,
        SessionStatus::Idle | SessionStatus::Unknown => 4,
    }
}

/// Whether `i` is where the status of highest priority stands first.
pub open spec fn stands_out(statuses: Seq<SessionStatus>, i: int) -> bool {
    &&& 0 <= i < statuses.len()
    &&& forall|j: int|
        0 <= j < statuses.len() ==> rank_of(statuses[i]) <= rank_of(#[trigger] statuses[j])
    &&& forall|j: int| 0 <= j < i ==> rank_of(statuses[i]) < rank_of(#[trigger] statuses[j])
}

/// The color of a status.
pub fn status_color(status: &SessionStatus) -> (r: Color)
    ensures
        r == color_of(*status),
{
    match status {
        SessionStatus::Working => STATUS_WORKING,
        SessionStatus::Thinking => STATUS_THINKING,
        SessionStatus::Compacting => STATUS_THINKING,
        SessionStatus::WaitingForInput => STATUS_WAITING,
        SessionStatus::Error => STATUS_ERROR,
        SessionStatus::Idle => STATUS_IDLE,
        SessionStatus::Unknown => STATUS_IDLE,
    }
}

/// The rank of a status. The lowest wins.
pub fn priority_rank(status: &SessionStatus) -> (r: u8)
    ensures
        r == rank_of(*status),
{
    match status {
        SessionStatus::Error => 0,
        SessionStatus::WaitingForInput => 1,
        SessionStatus::Working => 2,
        SessionStatus::Thinking | SessionStatus::Compacting => 3,
        SessionStatus::Idle | SessionStatus::Unknown => 4,
    }
}

/// The status of highest priority, the first of several with the same rank. Without any
/// status it is idle.
pub fn highest_priority_status(statuses: &[SessionStatus]) -> (r: SessionStatus)
    ensures
        statuses@.len() == 0 ==> r == SessionStatus::Idle,
        statuses@.len() > 0 ==> exists|i: int|
            #[trigger] stands_out(statuses@, i) && r == statuses@[i],
{
    if statuses.len() == 0 {
        return SessionStatus::Idle;
    }
    let mut best: usize = 0;
    let mut i: usize = 1;
    while i < statuses.len()
        invariant
            best < i <= statuses@.len(),
            forall|j: int|
                0 <= j < i ==> rank_of(statuses@[best as int]) <= rank_of(#[trigger] statuses@[j]),
            forall|j: int|
                0 <= j < best ==> rank_of(statuses@[best as int]) < rank_of(
                    #[trigger] statuses@[j],
                ),
        decreases statuses@.len() - i,
    {
        if priority_rank(&statuses[i]) < priority_rank(&statuses[best]) {
            best = i;
        }
        i = i + 1;
    }
    proof {
        assert(stands_out(statuses@, best as int));
    }
    statuses[best]
}

// ---------------------------------------------------------------------------
// Laws
// ---------------------------------------------------------------------------

/// Two statuses that look the same have the same priority, and the other way round.
pub proof fn colors_follow_priorities(a: SessionStatus, b: SessionStatus)
    ensures
        color_of(a) == color_of(b) <==> rank_of(a) == rank_of(b),
{
}

/// The accent of the focused pane is the color of no status.
pub proof fn focus_looks_like_no_status(status: SessionStatus)
    ensures
        color_of(status) != FOCUSED,
{
}

/// There is one status of highest priority, so the order of the rest does not matter.
pub proof fn one_status_stands_out(statuses: Seq<SessionStatus>, i: int, j: int)
    requires
        stands_out(statuses, i),
        stands_out(statuses, j),
    ensures
        i == j,
{
    if i < j {
        assert(rank_of(statuses[j]) < rank_of(statuses[i]));
    } else if j < i {
        assert(rank_of(statuses[i]) < rank_of(statuses[j]));
    }
}

/// A failure comes first, then a question, then work, then thought; an idle session comes last.
/// Compacting counts as thinking, and an unknown status as idle. The ranks count up from nought.
pub proof fn trouble_comes_first()
    ensures
        rank_of(SessionStatus::Error) == 0,
        rank_of(SessionStatus::WaitingForInput) == rank_of(SessionStatus::Error) + 1,
        rank_of(SessionStatus::Working) == rank_of(SessionStatus::WaitingForInput) + 1,
        rank_of(SessionStatus::Thinking) == rank_of(SessionStatus::Working) + 1,
        rank_of(SessionStatus::Thinking) == rank_of(SessionStatus::Compacting),
        rank_of(SessionStatus::Idle) == rank_of(SessionStatus::Thinking) + 1,
        rank_of(SessionStatus::Idle) == rank_of(SessionStatus::Unknown),
{
}

/// Whether one of the sessions has this status.
pub open spec fn is_among(statuses: Seq<SessionStatus>, status: SessionStatus) -> bool {
    exists|i: int| 0 <= i < statuses.len() && #[trigger] statuses[i] == status
}

/// The status that stands out is a failure wherever there is one; without a failure, a question
/// wherever there is one; then work; then thought. So no session in trouble is hidden behind
/// one that is not.
pub proof fn the_worst_status_stands_out(statuses: Seq<SessionStatus>, i: int)
    requires
        stands_out(statuses, i),
    ensures
        ({
            let error = is_among(statuses, SessionStatus::Error);
            let waiting = is_among(statuses, SessionStatus::WaitingForInput);
            let working = is_among(statuses, SessionStatus::Working);
            let thinking = is_among(statuses, SessionStatus::Thinking) || is_among(
                statuses,
                SessionStatus::Compacting,
            );
            &&& error <==> statuses[i] == SessionStatus::Error
            &&& !error && waiting <==> statuses[i] == SessionStatus::WaitingForInput
            &&& !error && !waiting && working <==> statuses[i] == SessionStatus::Working
            &&& !error && !waiting && !working && thinking <==> statuses[i]
                == SessionStatus::Thinking || statuses[i] == SessionStatus::Compacting
            &&& forall|j: int| 0 <= j < i ==> #[trigger] statuses[j] != statuses[i]
        }),
{
    assert(is_among(statuses, statuses[i]));
}

/// A status looks as its name says: failures are red, questions yellow, work green, thought
/// blue, and what does nothing, or is unknown, gray.
pub proof fn a_status_looks_as_it_is()
    ensures
        color_of(SessionStatus::Error) == Color::Red,
        color_of(SessionStatus::WaitingForInput) == Color::Yellow,
        color_of(SessionStatus::Working) == Color::Green,
        color_of(SessionStatus::Thinking) == Color::Blue,
        color_of(SessionStatus::Compacting) == Color::Blue,
        color_of(SessionStatus::Idle) == Color::DarkGray,
        color_of(SessionStatus::Unknown) == Color::DarkGray,
{
}

} // verus!
