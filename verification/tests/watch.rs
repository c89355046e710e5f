use dot_agent_deck::watch::{
    clear_sequence, pause_before, spawn_failure, PumpStep, ReadOutcome, Screen,
};

/// Write what a pass over these reads writes, and say what is on the screen after each.
fn pass(reads: Vec<ReadOutcome>) -> (Vec<u8>, Vec<usize>) {
    let mut screen = Screen::new();
    let mut sink: Vec<u8> = Vec::new();
    let mut lengths = Vec::new();
    for read in reads {
        if let PumpStep::Write(bytes) = screen.pump(read) {
            sink.extend(bytes);
        }
        lengths.push(sink.len());
    }
    sink.extend(screen.finish());
    (sink, lengths)
}

fn captured(reads: Vec<ReadOutcome>) -> String {
    String::from_utf8_lossy(&pass(reads).0).into_owned()
}

fn data(text: &str) -> ReadOutcome {
    ReadOutcome::Data(text.as_bytes().to_vec())
}

#[test]
fn streams_output_before_a_long_running_command_exits() {
    // The second pipe never ends: what came before is on the screen all the same.
    let mut screen = Screen::new();
    match screen.pump(data("EARLY_OUTPUT\n")) {
        PumpStep::Write(bytes) => {
            let shown = String::from_utf8_lossy(&bytes).into_owned();
            assert!(shown.contains("EARLY_OUTPUT"));
            assert!(bytes.starts_with(&clear_sequence()));
        }
        other => panic!("nothing was written: {other:?}"),
    }
}

#[test]
fn clears_then_writes_the_output_of_a_command_that_exits() {
    assert_eq!(
        captured(vec![data("DONE\n"), data("")]),
        "\u{1b}[3J\u{1b}[2J\u{1b}[HDONE\n"
    );
}

#[test]
fn clears_the_screen_when_the_command_produces_no_output() {
    assert_eq!(
        captured(vec![data(""), data("")]),
        "\u{1b}[3J\u{1b}[2J\u{1b}[H"
    );
}

#[test]
fn streams_stderr_as_well_as_stdout() {
    // The first pipe is at its end, the second one is not.
    let shown = captured(vec![data(""), data("ON_STDERR\n"), data("")]);
    assert!(shown.contains("ON_STDERR"), "got {shown:?}");
}

#[test]
fn shows_output_of_a_command_that_fails() {
    let shown = captured(vec![data("BOOM\n"), ReadOutcome::Failed]);
    assert!(shown.contains("BOOM"), "got {shown:?}");
}

#[test]
fn a_pass_clears_once_and_keeps_the_order_of_arrival() {
    let (sink, lengths) = pass(vec![
        ReadOutcome::Interrupted,
        data("one "),
        data("two "),
        ReadOutcome::Interrupted,
        data("three"),
        data(""),
    ]);
    let mut wanted = clear_sequence();
    wanted.extend(b"one two three");
    assert_eq!(sink, wanted);
    assert_eq!(lengths, vec![0, 15, 19, 19, 24, 24]);
}

#[test]
fn the_end_of_a_pipe_and_a_failure_stop_it_but_an_interruption_does_not() {
    let mut screen = Screen::new();
    assert!(matches!(screen.pump(data("")), PumpStep::Stop));
    assert!(matches!(screen.pump(ReadOutcome::Failed), PumpStep::Stop));
    assert!(matches!(screen.pump(ReadOutcome::Interrupted), PumpStep::Again));
    assert!(!screen.cleared);
}

#[test]
fn a_command_that_does_not_start_is_reported() {
    assert_eq!(
        String::from_utf8(spawn_failure("no such shell — ß")).unwrap(),
        "\u{1b}[3J\u{1b}[2J\u{1b}[H[error: no such shell — ß]\n"
    );
}

#[test]
fn only_later_passes_wait() {
    assert_eq!(pause_before(true, 5), None);
    assert_eq!(pause_before(false, 5), Some(5));
}
