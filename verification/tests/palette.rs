use dot_agent_deck::palette::SessionStatus::{
    Compacting, Error, Idle, Thinking, Unknown, WaitingForInput, Working,
};
use dot_agent_deck::palette::{
    highest_priority_status, priority_rank, status_color, Color, SessionStatus, FOCUSED,
    STATUS_ERROR, STATUS_IDLE, STATUS_THINKING, STATUS_WAITING, STATUS_WORKING,
};

const ALL: [SessionStatus; 7] = [
    SessionStatus::Working,
    SessionStatus::Thinking,
    SessionStatus::Compacting,
    SessionStatus::WaitingForInput,
    SessionStatus::Error,
    SessionStatus::Idle,
    SessionStatus::Unknown,
];

#[test]
fn highest_priority_status_orders_by_priority() {
    assert_eq!(highest_priority_status(&[Idle, Error, Idle]), Error);
    assert_eq!(
        highest_priority_status(&[Working, WaitingForInput, Idle]),
        WaitingForInput
    );
    assert_eq!(highest_priority_status(&[Idle, Idle, Idle]), Idle);
    assert_eq!(highest_priority_status(&[Thinking, Working]), Working);
    assert_eq!(highest_priority_status(&[Compacting, Idle]), Compacting);
    assert_eq!(highest_priority_status(&[Unknown, Idle]), Unknown);
    assert_eq!(highest_priority_status(&[Error, WaitingForInput]), Error);
    assert_eq!(highest_priority_status(&[]), Idle);
}

#[test]
fn the_first_of_several_equals_wins() {
    assert_eq!(highest_priority_status(&[Thinking, Compacting]), Thinking);
    assert_eq!(highest_priority_status(&[Compacting, Thinking]), Compacting);
    assert_eq!(highest_priority_status(&[Idle, Unknown]), Idle);
}

#[test]
fn each_status_has_its_color() {
    assert_eq!(status_color(&SessionStatus::Working), STATUS_WORKING);
    assert_eq!(status_color(&SessionStatus::Thinking), STATUS_THINKING);
    assert_eq!(status_color(&SessionStatus::Compacting), STATUS_THINKING);
    assert_eq!(status_color(&SessionStatus::WaitingForInput), STATUS_WAITING);
    assert_eq!(status_color(&SessionStatus::Error), STATUS_ERROR);
    assert_eq!(status_color(&SessionStatus::Idle), STATUS_IDLE);
    assert_eq!(status_color(&SessionStatus::Unknown), STATUS_IDLE);
    assert_eq!(STATUS_WORKING, Color::Green);
    assert_eq!(STATUS_THINKING, Color::Blue);
    assert_eq!(STATUS_WAITING, Color::Yellow);
    assert_eq!(STATUS_ERROR, Color::Red);
    assert_eq!(STATUS_IDLE, Color::DarkGray);
    assert_eq!(FOCUSED, Color::Cyan);
}

#[test]
fn colors_and_ranks_agree_and_the_accent_is_no_status() {
    for a in ALL {
        assert_ne!(status_color(&a), FOCUSED);
        for b in ALL {
            assert_eq!(
                status_color(&a) == status_color(&b),
                priority_rank(&a) == priority_rank(&b)
            );
        }
    }
}
