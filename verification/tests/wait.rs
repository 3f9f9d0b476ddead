use autocon::error::AutoConError;
use autocon::grid::GridCapture;
use autocon::matcher::{MatchAuthPrompt, MatchAuthPromptResult, MatchScreenBuffer};
use autocon::screen::ScreenBuffer;
use autocon::wait::{Poll, Polling, Wait, POLL_INTERVAL_MILLIS};

const SECOND: u128 = 1_000_000_000;

struct NeverMatches;

impl MatchScreenBuffer for NeverMatches {
    type MatchResult = ();

    fn match_screen_buffer(&self, _content: &str) -> Option<()> {
        None
    }
}

struct MatchesAnything;

impl MatchScreenBuffer for MatchesAnything {
    type MatchResult = usize;

    fn match_screen_buffer(&self, content: &str) -> Option<usize> {
        Some(content.len())
    }
}

fn shows(text: &str) -> Result<GridCapture, AutoConError> {
    Ok(GridCapture { columns: 80, cells: text.as_bytes().to_vec() })
}

fn fails(context: &'static str, code: i32) -> Result<GridCapture, AutoConError> {
    Err(AutoConError::Win32Error(context, std::io::Error::from_raw_os_error(code)))
}

/// Runs a wait over the polls given, as the caller's loop would, and says
/// where it stood after the last poll taken and how many were taken.
fn run<M: MatchScreenBuffer>(
    screen: &mut ScreenBuffer,
    timeout: u128,
    matcher: &M,
    polls: Vec<Poll>,
) -> (Wait<M::MatchResult>, usize) {
    let mut polling = Polling::new(timeout);
    let mut taken = 0;
    for poll in polls {
        taken += 1;
        match screen.wait_for(polling, poll, matcher) {
            Wait::Polling(next) => polling = next,
            ended => return (ended, taken),
        }
    }
    (Wait::Polling(polling), taken)
}

#[test]
fn the_pause_between_polls() {
    assert_eq!(POLL_INTERVAL_MILLIS, 100);
}

#[test]
fn a_wait_begins_with_nothing_remembered() {
    let polling = Polling::new(3 * SECOND);
    assert_eq!(polling.timeout, 3 * SECOND);
    assert!(polling.last_error.is_none());
}

#[test]
fn no_match_ends_in_timeout_once_the_time_has_passed() {
    let mut screen = ScreenBuffer::new().unwrap();
    let polls = (0..=12)
        .map(|i| Poll { capture: shows("$ "), elapsed: Some(i * 100_000_000) })
        .collect();
    let (ended, taken) = run(&mut screen, SECOND, &NeverMatches, polls);
    assert!(matches!(ended, Wait::TimedOut(AutoConError::Timeout)));
    assert_eq!(taken, 12);
}

#[test]
fn the_timeout_itself_has_not_passed() {
    let mut screen = ScreenBuffer::new().unwrap();
    let poll = Poll { capture: shows("$ "), elapsed: Some(SECOND) };
    let next = screen.wait_for(Polling::new(SECOND), poll, &NeverMatches);
    assert!(matches!(next, Wait::Polling(_)));
    let poll = Poll { capture: shows("$ "), elapsed: Some(SECOND + 1) };
    let next = screen.wait_for(Polling::new(SECOND), poll, &NeverMatches);
    assert!(matches!(next, Wait::TimedOut(AutoConError::Timeout)));
}

#[test]
fn a_timeout_of_nothing_ends_after_one_poll() {
    let mut screen = ScreenBuffer::new().unwrap();
    let poll = Poll { capture: shows("$ "), elapsed: Some(1) };
    let next = screen.wait_for(Polling::new(0), poll, &NeverMatches);
    assert!(matches!(next, Wait::TimedOut(AutoConError::Timeout)));
}

#[test]
fn a_match_on_the_first_capture_ends_the_wait_at_once() {
    let mut screen = ScreenBuffer::new().unwrap();
    let poll = Poll { capture: shows("Enter Password:"), elapsed: Some(5) };
    let matcher = MatchAuthPrompt::new(false);
    let next = screen.wait_for(Polling::new(60 * SECOND), poll, &matcher);
    assert!(matches!(next, Wait::Matched(MatchAuthPromptResult::Password)));
    assert_eq!(screen.content(), "Enter Password:");
}

#[test]
fn a_match_counts_even_after_the_timeout() {
    let mut screen = ScreenBuffer::new().unwrap();
    let poll = Poll { capture: shows("abc"), elapsed: Some(2 * SECOND) };
    let next = screen.wait_for(Polling::new(SECOND), poll, &MatchesAnything);
    assert!(matches!(next, Wait::Matched(3)));
}

#[test]
fn a_match_on_the_first_capture_that_succeeds() {
    let mut screen = ScreenBuffer::new().unwrap();
    let polls = vec![
        Poll { capture: fails("Failed to retrieve screen buffer info", 6), elapsed: Some(1) },
        Poll { capture: fails("Failed to read console output", 5), elapsed: Some(2) },
        Poll {
            capture: shows("Are you sure you want to continue connecting (yes/no)?"),
            elapsed: Some(3),
        },
        Poll { capture: shows("never looked at"), elapsed: Some(4) },
    ];
    let (ended, taken) = run(&mut screen, SECOND, &MatchAuthPrompt::new(false), polls);
    assert!(matches!(ended, Wait::Matched(MatchAuthPromptResult::Confirm)));
    assert_eq!(taken, 3);
}

#[test]
fn captures_that_always_fail_end_with_their_error() {
    let mut screen = ScreenBuffer::new().unwrap();
    let polls = (1..=20)
        .map(|i| Poll {
            capture: fails("Failed to read console output", 5),
            elapsed: Some(i * 100_000_000),
        })
        .collect();
    let (ended, taken) = run(&mut screen, SECOND, &MatchAuthPrompt::new(false), polls);
    match ended {
        Wait::TimedOut(AutoConError::Win32Error(context, error)) => {
            assert_eq!(context, "Failed to read console output");
            assert_eq!(error.raw_os_error(), Some(5));
        }
        other => panic!("the wait did not end with the capture's error: {:?}", other),
    }
    assert_eq!(taken, 11);
    assert_eq!(screen.content(), "");
}

#[test]
fn a_single_failure_does_not_end_the_wait() {
    let mut screen = ScreenBuffer::new().unwrap();
    let poll = Poll { capture: fails("Failed to read console output", 5), elapsed: Some(1) };
    match screen.wait_for(Polling::new(SECOND), poll, &NeverMatches) {
        Wait::Polling(polling) => {
            assert_eq!(polling.timeout, SECOND);
            assert!(matches!(
                polling.last_error,
                Some(AutoConError::Win32Error("Failed to read console output", _))
            ));
        }
        other => panic!("the wait ended: {:?}", other),
    }
}

#[test]
fn the_latest_failure_is_the_one_remembered() {
    let mut screen = ScreenBuffer::new().unwrap();
    let polls = vec![
        Poll { capture: fails("Failed to retrieve screen buffer info", 6), elapsed: Some(1) },
        Poll { capture: fails("Failed to read console output", 5), elapsed: Some(2) },
        Poll { capture: shows("$ "), elapsed: Some(3) },
        Poll { capture: shows("$ "), elapsed: Some(SECOND + 3) },
    ];
    let (ended, taken) = run(&mut screen, SECOND, &NeverMatches, polls);
    match ended {
        Wait::TimedOut(AutoConError::Win32Error(context, error)) => {
            assert_eq!(context, "Failed to read console output");
            assert_eq!(error.raw_os_error(), Some(5));
        }
        other => panic!("the wait did not end with the latest failure: {:?}", other),
    }
    assert_eq!(taken, 4);
    assert_eq!(screen.content(), "$");
}

#[test]
fn a_clock_that_cannot_tell_leaves_the_wait_going() {
    let mut screen = ScreenBuffer::new().unwrap();
    let polls = vec![
        Poll { capture: shows("$ "), elapsed: None },
        Poll { capture: shows("$ "), elapsed: None },
    ];
    let (ended, taken) = run(&mut screen, 0, &NeverMatches, polls);
    assert!(matches!(ended, Wait::Polling(_)));
    assert_eq!(taken, 2);
}

#[test]
fn a_blank_screen_keeps_the_wait_going() {
    let mut screen = ScreenBuffer::new().unwrap();
    let polls = vec![
        Poll { capture: shows("   "), elapsed: Some(1) },
        Poll { capture: Ok(GridCapture { columns: 40, cells: vec![0; 80] }), elapsed: Some(2) },
        Poll { capture: shows("login as: admin\0 admin@host's password:"), elapsed: Some(3) },
    ];
    let (ended, taken) = run(&mut screen, SECOND, &MatchAuthPrompt::new(false), polls);
    assert!(matches!(ended, Wait::Polling(_)));
    assert_eq!(taken, 3);
    assert_eq!(screen.content(), "login as: admin");
}

#[test]
fn the_prompt_appears_after_a_while() {
    let mut screen = ScreenBuffer::new().unwrap();
    let mut cells = b"login as: admin".to_vec();
    cells.resize(40, 0);
    cells.extend_from_slice(b"admin@host's password:");
    cells.resize(80, 0);
    let polls = vec![
        Poll { capture: shows("login as: "), elapsed: Some(1) },
        Poll { capture: shows("login as: admin"), elapsed: Some(2) },
        Poll { capture: Ok(GridCapture { columns: 40, cells }), elapsed: Some(3) },
    ];
    let (ended, taken) = run(&mut screen, SECOND, &MatchAuthPrompt::new(false), polls);
    assert!(matches!(ended, Wait::Matched(MatchAuthPromptResult::Password)));
    assert_eq!(taken, 3);
    assert_eq!(screen.content(), "login as: admin\nadmin@host's password:");
}

#[test]
fn a_turn_decided_on_plain_values() {
    let os_error = || AutoConError::Win32Error("Failed to read console output", std::io::Error::from_raw_os_error(5));
    assert!(matches!(Polling::new(10).turn(None, Some('x'), None), Wait::Matched('x')));
    assert!(matches!(Polling::new(10).turn(None, Some('x'), Some(11)), Wait::Matched('x')));
    assert!(matches!(
        Polling::new(10).turn::<char>(None, None, Some(11)),
        Wait::TimedOut(AutoConError::Timeout)
    ));
    assert!(matches!(
        Polling::new(10).turn::<char>(Some(os_error()), None, Some(11)),
        Wait::TimedOut(AutoConError::Win32Error("Failed to read console output", _))
    ));
    assert!(matches!(
        Polling::new(10).turn::<char>(None, None, Some(10)),
        Wait::Polling(Polling { timeout: 10, last_error: None })
    ));
    assert!(matches!(
        Polling::new(10).turn::<char>(Some(os_error()), None, None),
        Wait::Polling(Polling { timeout: 10, last_error: Some(AutoConError::Win32Error(_, _)) })
    ));
    let remembering = Polling { timeout: 10, last_error: Some(os_error()) };
    assert!(matches!(
        remembering.turn::<char>(None, None, Some(u128::MAX)),
        Wait::TimedOut(AutoConError::Win32Error("Failed to read console output", _))
    ));
    let remembering = Polling { timeout: 10, last_error: Some(os_error()) };
    assert!(matches!(
        remembering.turn::<char>(Some(AutoConError::UserDefinedError(String::from("later"))), None, Some(11)),
        Wait::TimedOut(AutoConError::UserDefinedError(_))
    ));
}

#[test]
fn a_failed_capture_leaves_the_screen_as_it_was() {
    let mut screen = ScreenBuffer::new().unwrap();
    let first = Poll { capture: shows("C:\\> "), elapsed: Some(1) };
    assert!(matches!(screen.wait_for(Polling::new(SECOND), first, &NeverMatches), Wait::Polling(_)));
    assert_eq!(screen.content(), "C:\\>");
    let second = Poll { capture: fails("Failed to read console output", 5), elapsed: Some(2) };
    assert!(matches!(screen.wait_for(Polling::new(SECOND), second, &NeverMatches), Wait::Polling(_)));
    assert_eq!(screen.content(), "C:\\>");
    assert_eq!(screen.buffer_len(), 5);
}

#[test]
fn a_recorded_session_ends_with_the_match() {
    let mut screen = ScreenBuffer::new().unwrap();
    let polls = vec![
        Poll { capture: fails("Failed to retrieve screen buffer info", 6), elapsed: Some(1) },
        Poll { capture: shows("login as: admin"), elapsed: Some(2) },
        Poll { capture: shows("Password:"), elapsed: Some(3) },
        Poll { capture: shows("never looked at"), elapsed: Some(4) },
    ];
    let ended = screen.wait_through(Polling::new(SECOND), polls, &MatchAuthPrompt::new(true));
    assert!(matches!(ended, Wait::Matched(MatchAuthPromptResult::Password)));
    assert_eq!(screen.content(), "Password:");
}

#[test]
fn a_recorded_session_ends_in_timeout() {
    let mut screen = ScreenBuffer::new().unwrap();
    let polls = vec![
        Poll { capture: shows("one"), elapsed: Some(SECOND - 1) },
        Poll { capture: shows("two"), elapsed: Some(SECOND) },
        Poll { capture: shows("three"), elapsed: Some(SECOND + 1) },
        Poll { capture: shows("four"), elapsed: Some(SECOND + 2) },
    ];
    let ended = screen.wait_through(Polling::new(SECOND), polls, &NeverMatches);
    assert!(matches!(ended, Wait::TimedOut(AutoConError::Timeout)));
    assert_eq!(screen.content(), "three");
}

#[test]
fn a_recorded_session_that_runs_out_leaves_the_wait_going() {
    let mut screen = ScreenBuffer::new().unwrap();
    let polls = vec![
        Poll { capture: shows("one"), elapsed: Some(1) },
        Poll { capture: fails("Failed to read console output", 5), elapsed: Some(2) },
    ];
    match screen.wait_through(Polling::new(SECOND), polls, &NeverMatches) {
        Wait::Polling(polling) => {
            assert_eq!(polling.timeout, SECOND);
            assert!(matches!(polling.last_error, Some(AutoConError::Win32Error(_, _))));
        }
        other => panic!("the wait ended: {:?}", other),
    }
    assert_eq!(screen.content(), "one");
    let ended = screen.wait_through(Polling::new(SECOND), Vec::new(), &NeverMatches);
    assert!(matches!(ended, Wait::Polling(Polling { last_error: None, .. })));
}
