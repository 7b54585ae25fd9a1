use den::docker::{collect_output, OutputFrame};
use den::error::DenError;
use den::session::{
    input_step, open_session, output_step, start_failed, timely_input, timely_output, FirstFrame,
    InputAction, InputEvent, Opening, OutputAction, OutputEvent, OutputState, WsClientMsg,
    WsExecStart, WsServerMsg, MAX_MESSAGE_BYTES, WS_EXEC_TIMEOUT_SECS,
};

#[test]
fn limits_are_as_documented() {
    assert_eq!(WS_EXEC_TIMEOUT_SECS, 3600);
    assert_eq!(MAX_MESSAGE_BYTES, 64 * 1024);
}

#[test]
fn a_session_opens_with_a_command() {
    let start = WsExecStart { cmd: vec!["ls".into()], workdir: None, env: None };
    match open_session(FirstFrame::Text(Ok(start))) {
        Opening::Run(s) => assert_eq!(s.cmd, vec!["ls".to_string()]),
        _ => panic!("refused"),
    }
    match open_session(FirstFrame::Text(Err("missing field".into()))) {
        Opening::Refuse(m) => {
            assert_eq!(m.msg_type, "error");
            assert_eq!(m.data, "invalid start message: missing field");
            assert_eq!(m.oom_killed, None);
        }
        _ => panic!("not refused"),
    }
    assert!(matches!(open_session(FirstFrame::Other), Opening::Close));
}

#[test]
fn a_command_that_cannot_start_is_told() {
    let m = start_failed(&DenError::Docker("no such container".into()));
    assert_eq!(m.msg_type, "error");
    assert_eq!(m.data, "docker: no such container");
}

/// Drive a session in which every message arrives, up to the `broken`th.
fn run(
    frames: Vec<OutputFrame>,
    exit: Result<i64, DenError>,
    oom: Result<bool, DenError>,
    broken: usize,
) -> Vec<WsServerMsg> {
    let mut sent = Vec::new();
    let mut frames = frames.into_iter();
    let mut exit = Some(exit);
    let mut oom = Some(oom);
    let mut state = OutputState::Streaming;
    let mut event = OutputEvent::Sent(true);
    loop {
        let (next, action) = output_step(state, event);
        state = next;
        event = match action {
            OutputAction::ReadOutput => match frames.next() {
                Some(f) => OutputEvent::Frame(f),
                None => OutputEvent::Ended,
            },
            OutputAction::Send(m) => {
                sent.push(m);
                OutputEvent::Sent(sent.len() < broken)
            }
            OutputAction::InspectExec => OutputEvent::Exit(exit.take().unwrap()),
            OutputAction::InspectContainer => OutputEvent::Oom(oom.take().unwrap()),
            OutputAction::Finish => break,
        };
    }
    assert_eq!(state, OutputState::Done);
    sent
}

fn frames() -> Vec<OutputFrame> {
    vec![
        OutputFrame::StdOut(b"a".to_vec()),
        OutputFrame::Other,
        OutputFrame::StdErr(b"b".to_vec()),
        OutputFrame::StdOut(vec![0xC3]),
    ]
}

#[test]
fn output_comes_first_and_the_exit_code_last() {
    let sent = run(frames(), Ok(2), Ok(true), usize::MAX);
    let told: Vec<(&str, &str)> =
        sent.iter().map(|m| (m.msg_type.as_str(), m.data.as_str())).collect();
    assert_eq!(
        told,
        vec![("stdout", "a"), ("stderr", "b"), ("stdout", "\u{FFFD}"), ("exit", "2")]
    );
    assert!(sent.iter().all(|m| m.oom_killed.is_none()));
}

#[test]
fn streaming_and_collecting_tell_the_same() {
    let sent = run(frames(), Ok(0), Ok(false), usize::MAX);
    let streamed: String = sent
        .iter()
        .filter(|m| m.msg_type == "stdout")
        .map(|m| m.data.as_str())
        .collect();
    assert_eq!(streamed, collect_output(&frames(), Some(0)).stdout);
}

#[test]
fn a_killed_command_is_asked_about() {
    let last = |exit, oom| run(vec![], exit, oom, usize::MAX).pop().unwrap();
    let m = last(Ok(137), Ok(true));
    assert_eq!((m.data.as_str(), m.oom_killed), ("137", Some(true)));
    let m = last(Ok(137), Ok(false));
    assert_eq!((m.data.as_str(), m.oom_killed), ("137", None));
    let m = last(Ok(137), Err(DenError::Docker("x".into())));
    assert_eq!(m.oom_killed, None);
    let m = last(Err(DenError::Docker("x".into())), Ok(true));
    assert_eq!((m.data.as_str(), m.oom_killed), ("-1", None));
}

#[test]
fn a_lost_client_gets_no_more_output() {
    let sent = run(frames(), Ok(0), Ok(false), 1);
    assert_eq!(sent.len(), 2);
    assert_eq!(sent[0].data, "a");
    assert_eq!(sent[1].msg_type, "exit");
}

#[test]
fn what_does_not_belong_ends_the_session() {
    let (s, a) = output_step(OutputState::ExitWanted, OutputEvent::Ended);
    assert_eq!(s, OutputState::Done);
    assert!(matches!(a, OutputAction::Finish));
}

#[test]
fn input_is_passed_on() {
    let stdin = InputEvent::Text(Some(WsClientMsg::Stdin { data: "ls\n".into() }));
    match input_step(stdin) {
        InputAction::Write(d) => assert_eq!(d, "ls\n"),
        _ => panic!("not written"),
    }
    assert!(matches!(input_step(InputEvent::Written(true)), InputAction::Touch));
    assert!(matches!(input_step(InputEvent::Written(false)), InputAction::Stop));
    assert!(matches!(input_step(InputEvent::Text(None)), InputAction::ReadFrame));
    assert!(matches!(input_step(InputEvent::Other), InputAction::ReadFrame));
    assert!(matches!(input_step(InputEvent::Close), InputAction::Stop));
    assert!(matches!(input_step(InputEvent::Ended), InputAction::Stop));
}

#[test]
fn a_session_is_over_after_an_hour() {
    for state in [
        OutputState::Streaming,
        OutputState::ExitWanted,
        OutputState::OomWanted,
        OutputState::Closing,
        OutputState::Done,
    ] {
        let late = timely_output(OutputEvent::Frame(OutputFrame::StdOut(b"x".to_vec())), 3600);
        assert!(matches!(late, OutputEvent::Deadline));
        let (s, a) = output_step(state, late);
        assert_eq!(s, OutputState::Done);
        assert!(matches!(a, OutputAction::Finish));
    }
    let typed = || InputEvent::Text(Some(WsClientMsg::Stdin { data: "x".into() }));
    assert!(matches!(input_step(timely_input(typed(), 3600)), InputAction::Stop));
    assert!(matches!(input_step(timely_input(typed(), u64::MAX)), InputAction::Stop));
    assert!(matches!(input_step(timely_input(typed(), 3599)), InputAction::Write(_)));
    assert!(matches!(timely_output(OutputEvent::Ended, 3599), OutputEvent::Ended));
}
