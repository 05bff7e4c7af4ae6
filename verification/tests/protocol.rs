use tools::session::significant;
use tools::{Action, Event, Input, JudgeVerdict, Session};

fn scenario_input() -> Input {
    Input { n: 3, l: 4, t: vec![1, 2, 1] }
}

/// Runs a session against a program that answers with `lines` and then
/// closes its output. Returns what was written to the program, the number
/// of lines read from it, whether its exit was waited for, and the session.
fn run(input: Input, lines: &[&str]) -> (String, usize, bool, Session) {
    let mut written = String::new();
    let mut read = 0;
    let mut waited = false;
    let mut session = Session::new(input);
    let mut event = Event::Start;
    loop {
        let (next, action) = session.step(event);
        session = next;
        event = match action {
            Action::Write(text) => {
                written.push_str(&text);
                Event::Written
            }
            Action::Read => {
                if read < lines.len() {
                    read += 1;
                    Event::Line(lines[read - 1].to_owned())
                } else {
                    Event::Closed
                }
            }
            Action::Wait => {
                waited = true;
                Event::Exited
            }
            Action::Stop => break,
        };
    }
    (written, read, waited, session)
}

#[test]
fn protocol_failure_when_the_program_stops_after_two_lines() {
    let (_, read, waited, session) = run(scenario_input(), &["1 2\n", "0 2\n"]);
    assert_eq!(read, 2);
    assert!(!waited);
    let verdict = session.verdict().unwrap();
    assert_eq!(verdict.score, 0);
    assert_eq!(
        verdict.error_message,
        Some("Your program has terminated unexpectedly".to_owned())
    );
}

#[test]
fn a_complete_session_ends_with_the_score() {
    let (written, read, waited, session) = run(scenario_input(), &["1 2\n", "0 2\n", "0 1\n"]);
    assert_eq!(written, "3 4\n1 2 1\n");
    assert_eq!(read, 3);
    assert!(waited);
    assert_eq!(session.verdict(), Some(JudgeVerdict { score: 6, error_message: None }));
}

#[test]
fn the_instance_is_written_line_by_line() {
    let session = Session::new(scenario_input());
    let (session, action) = session.step(Event::Start);
    assert_eq!(action, Action::Write("3 4\n".to_owned()));
    let (session, action) = session.step(Event::Written);
    assert_eq!(action, Action::Write("1 2 1\n".to_owned()));
    let (session, action) = session.step(Event::Written);
    assert_eq!(action, Action::Read);
    assert_eq!(session.verdict(), None);
}

#[test]
fn what_is_written_is_the_text_of_the_instance() {
    let input = Input { n: 4, l: 100, t: vec![25, 0, 70, 5] };
    let text = input.to_string();
    let (written, _, _, _) = run(input, &[]);
    assert_eq!(written, text);
}

#[test]
fn blank_lines_and_comments_take_no_slot() {
    let lines = ["# hello\n", "\n", "1 2\n", "   \n", "  # 0 0 0\n", "0 2\n", "\t0 1  \n"];
    let (_, read, waited, session) = run(scenario_input(), &lines);
    assert_eq!(read, 7);
    assert!(waited);
    assert_eq!(session.verdict(), Some(JudgeVerdict { score: 6, error_message: None }));
}

#[test]
fn output_after_the_last_line_is_not_read() {
    let lines = ["1 2\n", "0 2\n", "0 1\n", "garbage\n", "9 9 9\n"];
    let (_, read, waited, session) = run(scenario_input(), &lines);
    assert_eq!(read, 3);
    assert!(waited);
    assert_eq!(session.verdict().unwrap().score, 6);
}

#[test]
fn a_third_token_on_a_line_fails_the_session() {
    let (_, read, waited, session) = run(scenario_input(), &["1 2\n", " 0 2 1 \n", "0 1\n"]);
    assert_eq!(read, 2);
    assert!(!waited);
    let verdict = session.verdict().unwrap();
    assert_eq!(verdict.score, 0);
    assert_eq!(verdict.error_message, Some("Too many output: 0 2 1".to_owned()));
}

#[test]
fn the_first_bad_line_fails_the_session_at_once() {
    let cases = vec![
        (vec!["1 3\n", "0 2\n", "0 1\n"], 1, "Out of range: 3"),
        (vec!["1 2\n", "0 b\n", "0 1\n"], 2, "Parse error: b"),
        (vec!["1 2\n", "0 2\n", "0\n"], 3, "Unexpected EOF"),
        (vec!["-1 2\n"], 1, "Parse error: -1"),
    ];
    for (lines, consumed, message) in cases {
        let (_, read, waited, session) = run(scenario_input(), &lines);
        assert_eq!(read, consumed);
        assert!(!waited);
        let verdict = session.verdict().unwrap();
        assert_eq!(verdict.score, 0);
        assert_eq!(verdict.error_message, Some(message.to_owned()));
    }
}

#[test]
fn closing_before_the_first_line_fails_the_session() {
    let (_, read, _, session) = run(scenario_input(), &[]);
    assert_eq!(read, 0);
    assert_eq!(
        session.verdict().unwrap().error_message,
        Some("Your program has terminated unexpectedly".to_owned())
    );
}

#[test]
fn noise_before_the_end_of_output_does_not_save_the_session() {
    let (_, read, _, session) = run(scenario_input(), &["1 2\n", "0 2\n", "# almost\n", "\n"]);
    assert_eq!(read, 4);
    assert_eq!(session.verdict().unwrap().score, 0);
}

#[test]
fn an_event_that_is_not_awaited_changes_nothing() {
    let session = Session::new(scenario_input());
    let (session, action) = session.step(Event::Line("1 2".to_owned()));
    assert_eq!(action, Action::Stop);
    assert_eq!(session.verdict(), None);
    let (session, action) = session.step(Event::Start);
    assert_eq!(action, Action::Write("3 4\n".to_owned()));
    let (session, action) = session.step(Event::Exited);
    assert_eq!(action, Action::Stop);
    let (_, action) = session.step(Event::Written);
    assert_eq!(action, Action::Write("1 2 1\n".to_owned()));
}

#[test]
fn a_session_that_has_ended_stays_as_it_is() {
    let (_, _, _, session) = run(scenario_input(), &["1 2\n", "0 2\n", "0 1\n"]);
    let verdict = session.verdict();
    let (session, action) = session.step(Event::Closed);
    assert_eq!(action, Action::Stop);
    let (session, action) = session.step(Event::Start);
    assert_eq!(action, Action::Stop);
    assert_eq!(session.verdict(), verdict);
}

#[test]
fn a_session_on_a_single_position() {
    let input = Input { n: 1, l: 5, t: vec![5] };
    let (written, read, waited, session) = run(input, &["0 0\n"]);
    assert_eq!(written, "1 5\n5\n");
    assert_eq!(read, 1);
    assert!(waited);
    assert_eq!(session.verdict(), Some(JudgeVerdict { score: 10, error_message: None }));
}

#[test]
fn significant_lines_come_without_the_whitespace_around_them() {
    assert_eq!(significant("1 2\n"), Some("1 2".to_owned()));
    assert_eq!(significant("  0\t1 \r\n"), Some("0\t1".to_owned()));
    assert_eq!(significant("x # y"), Some("x # y".to_owned()));
}

#[test]
fn blank_lines_and_comments_are_noise() {
    assert_eq!(significant(""), None);
    assert_eq!(significant("\n"), None);
    assert_eq!(significant(" \t \n"), None);
    assert_eq!(significant("#"), None);
    assert_eq!(significant("# 1 2\n"), None);
    assert_eq!(significant("   #1 2\n"), None);
}
