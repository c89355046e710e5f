//! Running a command again and again, and showing what it prints.
//!
//! The screen is cleared at the first byte of each pass and not before, so that a fast
//! command leaves no blank gap and a slow one shows its output as it comes. A pass without
//! output clears the screen at its end, so that what the pass before it printed does not
//! stay. Running the command and reading its two pipes happen elsewhere; here is decided what
//! is written to the screen.

use vstd::prelude::*;
use vstd::string::*;

verus! {

/// Clear what has scrolled away and the screen, and put the cursor in the corner.
pub open spec fn clear_bytes() -> Seq<u8> {
    seq![0x1b, 0x5b, 0x33, 0x4a, 0x1b, 0x5b, 0x32, 0x4a, 0x1b, 0x5b, 0x48]
}

/// The bytes that clear the screen.
pub fn clear_sequence() -> (r: Vec<u8>)
    ensures
        r@ == clear_bytes(),
{
    let r: Vec<u8> = vec![
        0x1b, 0x5b, 0x33, 0x4a, 0x1b, 0x5b, 0x32, 0x4a, 0x1b, 0x5b, 0x48,
    ];
    r
}

/// What came of reading a pipe.
#[derive(Debug)]
pub enum ReadOutcome {
    /// These bytes; none at the end of the pipe.
    Data(Vec<u8>),
    /// A signal came in between.
    Interrupted,
    /// Anything else went wrong.
    Failed,
}

/// What to do with a pipe next.
#[derive(Debug)]
pub enum PumpStep {
    /// Write these bytes, and read on.
    Write(Vec<u8>),
    /// Read on.
    Again,
    /// The pipe is done.
    Stop,
}

/// What a [`ReadOutcome`] stands for.
pub enum ReadModel {
    Data(Seq<u8>),
    Interrupted,
    Failed,
}

/// What a [`PumpStep`] stands for.
pub enum StepModel {
    Write(Seq<u8>),
    Again,
    Stop,
}

impl View for ReadOutcome {
    type V = ReadModel;

    open spec fn view(&self) -> ReadModel {
        match *self {
            ReadOutcome::Data(bytes) => ReadModel::Data(bytes@),
            ReadOutcome::Interrupted => ReadModel::Interrupted,
            ReadOutcome::Failed => ReadModel::Failed,
        }
    }
}

impl View for PumpStep {
    type V = StepModel;

    open spec fn view(&self) -> StepModel {
        match *self {
            PumpStep::Write(bytes) => StepModel::Write(bytes@),
            PumpStep::Again => StepModel::Again,
            PumpStep::Stop => StepModel::Stop,
        }
    }
}

/// The screen during one pass. Both pipes of the command write to it.
#[derive(Debug)]
pub struct Screen {
    /// Whether the screen was cleared in this pass.
    pub cleared: bool,
}

/// What is done about one read: bytes are written, with the clearing in front of the first
/// ones; the end of the pipe and a failure end it, an interruption does not.
pub open spec fn step_for(cleared: bool, outcome: ReadModel) -> StepModel {
    match outcome {
        ReadModel::Data(bytes) => if bytes.len() == 0 {
            StepModel::Stop
        } else if cleared {
            StepModel::Write(bytes)
        } else {
            StepModel::Write(clear_bytes() + bytes)
        },
        ReadModel::Interrupted => StepModel::Again,
        ReadModel::Failed => StepModel::Stop,
    }
}

/// Whether the screen is cleared after one read.
pub open spec fn cleared_after(cleared: bool, outcome: ReadModel) -> bool {
    cleared || (outcome matches ReadModel::Data(bytes) && bytes.len() > 0)
}

/// What is written at the end of a pass.
pub open spec fn end_of_pass(cleared: bool) -> Seq<u8> {
    if cleared {
        Seq::empty()
    } else {
        clear_bytes()
    }
}

/// What is written where the command could not be started.
pub open spec fn failure_bytes(error: Seq<char>) -> Seq<u8> {
    clear_bytes() + vstd::utf8::encode_utf8("[error: "@ + error + "]\n"@)
}

impl Screen {
    /// The screen at the beginning of a pass.
    pub fn new() -> (r: Screen)
        ensures
            !r.cleared,
    {
        Screen { cleared: false }
    }

    /// What to do about one read of either pipe.
    pub fn pump(&mut self, outcome: ReadOutcome) -> (r: PumpStep)
        ensures
            r@ == step_for(old(self).cleared, outcome@),
            final(self).cleared == cleared_after(old(self).cleared, outcome@),
    {
        match outcome {
            ReadOutcome::Data(bytes) => {
                if bytes.len() == 0 {
                    return PumpStep::Stop;
                }
                if self.cleared {
                    return PumpStep::Write(bytes);
                }
                self.cleared = true;
                let mut out = clear_sequence();
                let mut tail = bytes;
                out.append(&mut tail);
                PumpStep::Write(out)
            },
            ReadOutcome::Interrupted => PumpStep::Again,
            ReadOutcome::Failed => PumpStep::Stop,
        }
    }

    /// What to write once the command is done and both pipes are at their end.
    pub fn finish(&self) -> (r: Vec<u8>)
        ensures
            r@ == end_of_pass(self.cleared),
    {
        if self.cleared {
            Vec::new()
        } else {
            clear_sequence()
        }
    }
}

/// What to write where the command could not be started.
pub fn spawn_failure(error: &str) -> (r: Vec<u8>)
    ensures
        r@ == failure_bytes(error@),
{
    let mut line = "[error: ".to_owned();
    line.append(error);
    line.append("]\n");
    let mut out = clear_sequence();
    let mut tail = line.as_str().as_bytes_vec();
    out.append(&mut tail);
    out
}

/// How many seconds to wait before a pass: none before the first.
pub fn pause_before(first: bool, interval_secs: u64) -> (r: Option<u64>)
    ensures
        r == if first {
            None
        } else {
            Some(interval_secs)
        },
{
    if first {
        None
    } else {
        Some(interval_secs)
    }
}

// ---------------------------------------------------------------------------
// Laws
// ---------------------------------------------------------------------------

/// The bytes of a run of reads, one behind the other.
pub open spec fn data_of(reads: Seq<ReadModel>) -> Seq<u8>
    decreases reads.len(),
{
    if reads.len() == 0 {
        Seq::empty()
    } else {
        data_of(reads.drop_last()) + (match reads.last() {
            ReadModel::Data(bytes) => bytes,
            _ => Seq::empty(),
        })
    }
}

/// Whether the screen is cleared after a run of reads.
pub open spec fn cleared_by(reads: Seq<ReadModel>) -> bool
    decreases reads.len(),
{
    if reads.len() == 0 {
        false
    } else {
        cleared_after(cleared_by(reads.drop_last()), reads.last())
    }
}

/// What is written for a run of reads, in the order in which they came from either pipe.
pub open spec fn written_for(reads: Seq<ReadModel>) -> Seq<u8>
    decreases reads.len(),
{
    if reads.len() == 0 {
        Seq::empty()
    } else {
        written_for(reads.drop_last()) + (match step_for(
            cleared_by(reads.drop_last()),
            reads.last(),
        ) {
            StepModel::Write(bytes) => bytes,
            _ => Seq::empty(),
        })
    }
}

/// A pass clears the screen once, ahead of everything else, and then shows every byte that
/// the command printed, in the order in which the bytes came. It does so even where the
/// command printed nothing.
pub proof fn a_pass_clears_once_then_shows_everything(reads: Seq<ReadModel>)
    ensures
        written_for(reads) + end_of_pass(cleared_by(reads)) == clear_bytes() + data_of(reads),
{
    written_so_far(reads);
    let out = written_for(reads) + end_of_pass(cleared_by(reads));
    assert(out =~= clear_bytes() + data_of(reads));
}

proof fn written_so_far(reads: Seq<ReadModel>)
    ensures
        cleared_by(reads) ==> written_for(reads) == clear_bytes() + data_of(reads),
        !cleared_by(reads) ==> written_for(reads).len() == 0 && data_of(reads).len() == 0,
    decreases reads.len(),
{
    if reads.len() > 0 {
        written_so_far(reads.drop_last());
        if cleared_by(reads) {
            assert(written_for(reads) =~= clear_bytes() + data_of(reads));
        }
    }
}

/// What was printed is on the screen as soon as it was read, not only at the end of the pass.
pub proof fn output_is_shown_as_it_comes(reads: Seq<ReadModel>)
    requires
        data_of(reads).len() > 0,
    ensures
        written_for(reads) == clear_bytes() + data_of(reads),
{
    written_so_far(reads);
}

/// A pipe is read until it ends or fails: an interruption is no end, and neither are bytes. What
/// is written for a read ends with its bytes, and begins with clearing the screen exactly where
/// that was not done yet.
pub proof fn a_pipe_is_read_to_its_end(cleared: bool, bytes: Seq<u8>)
    ensures
        step_for(cleared, ReadModel::Interrupted) is Again,
        step_for(cleared, ReadModel::Failed) is Stop,
        step_for(cleared, ReadModel::Data(bytes)) is Stop <==> bytes.len() == 0,
        bytes.len() > 0 ==> step_for(true, ReadModel::Data(bytes)) == StepModel::Write(bytes),
        bytes.len() > 0 ==> step_for(false, ReadModel::Data(bytes)) == StepModel::Write(
            clear_bytes() + bytes,
        ),
        cleared_after(cleared, ReadModel::Interrupted) == cleared,
        cleared_after(cleared, ReadModel::Failed) == cleared,
        cleared_after(cleared, ReadModel::Data(bytes)) == (cleared || bytes.len() > 0),
{
}

/// Clearing takes away what has scrolled off, then the screen, and puts the cursor in the
/// corner: three escape sequences. A pass that printed nothing is cleared at its end.
pub proof fn clearing_is_three_escapes()
    ensures
        clear_bytes().len() == "\x1b[3J\x1b[2J\x1b[H"@.len(),
        forall|i: int|
            0 <= i < clear_bytes().len() ==> #[trigger] clear_bytes()[i] as nat
                == "\x1b[3J\x1b[2J\x1b[H"@[i] as nat,
        end_of_pass(false) == clear_bytes(),
        end_of_pass(true).len() == 0,
{
    reveal_strlit("\x1b[3J\x1b[2J\x1b[H");
}

/// Where the command cannot be started, the screen is cleared and shows the whole error, in
/// brackets on a line of its own.
pub proof fn a_failed_start_shows_its_error(error: Seq<char>)
    ensures
        failure_bytes(error).take(clear_bytes().len() as int) == clear_bytes(),
        failure_bytes(error).skip(clear_bytes().len() as int) == vstd::utf8::encode_utf8(
            "[error: "@ + error + "]\n"@,
        ),
{
    let shown = vstd::utf8::encode_utf8("[error: "@ + error + "]\n"@);
    assert(failure_bytes(error).take(clear_bytes().len() as int) =~= clear_bytes());
    assert(failure_bytes(error).skip(clear_bytes().len() as int) =~= shown);
}

} // verus!
