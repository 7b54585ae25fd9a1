//! A command that runs over a WebSocket: what the client says, what it is told
//! and when the session ends.

use vstd::prelude::*;
use vstd::utf8::*;

#[allow(unused_imports)]
use crate::api;
use crate::api::{oom_verdict, wants_oom_check, KILLED_EXIT_CODE};
#[allow(unused_imports)]
use crate::docker;
use crate::docker::{lossy_text, OutputFrame};
#[allow(unused_imports)]
use crate::error;
use crate::error::DenError;
#[allow(unused_imports)]
use crate::text;
use crate::text::{join2, render_signed};

verus! {

/// Seconds that a session may last.
pub const WS_EXEC_TIMEOUT_SECS: u64 = 3600;

/// Bytes that a message of the client may have.
pub const MAX_MESSAGE_BYTES: usize = 65536;

// ---------------------------------------------------------------------------
// Messages
// ---------------------------------------------------------------------------

/// The command that a session starts with.
#[derive(Debug)]
pub struct WsExecStart {
    pub cmd: Vec<String>,
    pub workdir: Option<String>,
    pub env: Option<Vec<String>>,
}

/// A message of the client once the command runs.
#[derive(Debug)]
pub enum WsClientMsg {
    Stdin { data: String },
}

/// A message to the client.
#[derive(Debug)]
pub struct WsServerMsg {
    pub msg_type: String,
    pub data: String,
    pub oom_killed: Option<bool>,
}

/// The mathematical counterpart of [`WsServerMsg`].
pub struct MessageView {
    pub msg_type: Seq<char>,
    pub data: Seq<char>,
    pub oom_killed: Option<bool>,
}

impl View for WsServerMsg {
    type V = MessageView;

    open spec fn view(&self) -> MessageView {
        MessageView {
            msg_type: self.msg_type@,
            data: self.data@,
            oom_killed: self.oom_killed,
        }
    }
}

/// A message that says nothing of memory.
pub open spec fn plain_message(msg_type: Seq<char>, data: Seq<char>) -> MessageView {
    MessageView { msg_type, data, oom_killed: None }
}

/// The message that a command has ended.
pub open spec fn exit_message(exit_code: int, oom: bool) -> MessageView {
    MessageView {
        msg_type: "exit"@,
        data: text::signed_decimal(exit_code),
        oom_killed: if oom {
            Some(true)
        } else {
            None
        },
    }
}

/// The message for a piece of output, where it has one.
pub open spec fn frame_message(frame: OutputFrame) -> Option<MessageView> {
    match frame {
        OutputFrame::StdOut(b) => Some(plain_message("stdout"@, docker::lossy(b@))),
        OutputFrame::StdErr(b) => Some(plain_message("stderr"@, docker::lossy(b@))),
        OutputFrame::Other => None,
    }
}

fn message(msg_type: &str, data: String) -> (r: WsServerMsg)
    ensures
        r@ == plain_message(msg_type@, data@),
{
    WsServerMsg { msg_type: msg_type.to_string(), data, oom_killed: None }
}

fn exit_message_of(exit_code: i64, oom: bool) -> (r: WsServerMsg)
    ensures
        r@ == exit_message(exit_code as int, oom),
{
    WsServerMsg {
        msg_type: "exit".to_string(),
        data: render_signed(exit_code),
        oom_killed: if oom {
            Some(true)
        } else {
            None
        },
    }
}

// ---------------------------------------------------------------------------
// The start
// ---------------------------------------------------------------------------

/// What the client sends first.
#[derive(Debug)]
pub enum FirstFrame {
    /// A text, as the command that it holds or as what is wrong with it.
    Text(Result<WsExecStart, String>),
    /// Anything else, or nothing.
    Other,
}

/// How a session goes on after the first frame.
#[derive(Debug)]
pub enum Opening {
    Run(WsExecStart),
    Refuse(WsServerMsg),
    Close,
}

/// How a session goes on after its first frame: only a text can start it, and a
/// text that holds no command is answered with an error.
pub fn open_session(first: FirstFrame) -> (r: Opening)
    ensures
        match first {
            FirstFrame::Text(Ok(start)) => r == Opening::Run(start),
            FirstFrame::Text(Err(e)) => r is Refuse && r->Refuse_0@ == plain_message(
                "error"@,
                "invalid start message: "@ + e@,
            ),
            FirstFrame::Other => r is Close,
        },
{
    match first {
        FirstFrame::Text(Ok(start)) => Opening::Run(start),
        FirstFrame::Text(Err(e)) => Opening::Refuse(
            message("error", join2("invalid start message: ", e.as_str())),
        ),
        FirstFrame::Other => Opening::Close,
    }
}

/// What the client is told of a command that could not be started.
pub fn start_failed(e: &DenError) -> (r: WsServerMsg)
    ensures
        r@ == plain_message("error"@, error::message_of(e@)),
{
    message("error", e.message())
}

// ---------------------------------------------------------------------------
// Output
// ---------------------------------------------------------------------------

/// How far the output of a command has come.
#[derive(Debug, Clone, Copy, PartialEq, Eq, Structural)]
pub enum OutputState {
    /// Output is passed on.
    Streaming,
    /// The output has ended; the exit code is asked for.
    ExitWanted,
    /// The process was killed; Docker is asked whether for want of memory.
    OomWanted,
    /// The exit code is being sent.
    Closing,
    Done,
}

/// What has happened to the output of a command.
#[derive(Debug)]
pub enum OutputEvent {
    /// A piece of output came.
    Frame(OutputFrame),
    /// No more output comes, or it could not be read.
    Ended,
    /// A message was sent, or could not be.
    Sent(bool),
    /// The exit code, or why there is none.
    Exit(Result<i64, DenError>),
    /// Whether the container ran out of memory, or why that is not known.
    Oom(Result<bool, DenError>),
    /// The session has lasted as long as it may.
    Deadline,
}

/// What is to be done about the output of a command.
#[derive(Debug)]
pub enum OutputAction {
    ReadOutput,
    Send(WsServerMsg),
    InspectExec,
    InspectContainer,
    Finish,
}

/// The mathematical counterpart of [`OutputAction`].
pub enum OutputActionView {
    ReadOutput,
    Send(MessageView),
    InspectExec,
    InspectContainer,
    Finish,
}

impl View for OutputAction {
    type V = OutputActionView;

    open spec fn view(&self) -> OutputActionView {
        match *self {
            OutputAction::ReadOutput => OutputActionView::ReadOutput,
            OutputAction::Send(m) => OutputActionView::Send(m@),
            OutputAction::InspectExec => OutputActionView::InspectExec,
            OutputAction::InspectContainer => OutputActionView::InspectContainer,
            OutputAction::Finish => OutputActionView::Finish,
        }
    }
}

/// The exit code that the client is told: -1 where there is none.
pub open spec fn told_exit(exit: Result<i64, DenError>) -> int {
    match exit {
        Ok(c) => c as int,
        Err(_) => -1,
    }
}

/// The next state and what is to be done. The deadline ends the session in any
/// state, and so does what does not belong to a state.
pub open spec fn output_next(state: OutputState, event: OutputEvent) -> (
    OutputState,
    OutputActionView,
) {
    match (state, event) {
        (_, OutputEvent::Deadline) => (OutputState::Done, OutputActionView::Finish),
        (OutputState::Streaming, OutputEvent::Frame(f)) => match frame_message(f) {
            Some(m) => (OutputState::Streaming, OutputActionView::Send(m)),
            None => (OutputState::Streaming, OutputActionView::ReadOutput),
        },
        (OutputState::Streaming, OutputEvent::Sent(true)) => (
            OutputState::Streaming,
            OutputActionView::ReadOutput,
        ),
        (OutputState::Streaming, OutputEvent::Sent(false)) => (
            OutputState::ExitWanted,
            OutputActionView::InspectExec,
        ),
        (OutputState::Streaming, OutputEvent::Ended) => (
            OutputState::ExitWanted,
            OutputActionView::InspectExec,
        ),
        (OutputState::ExitWanted, OutputEvent::Exit(exit)) => if told_exit(exit)
            == KILLED_EXIT_CODE {
            (OutputState::OomWanted, OutputActionView::InspectContainer)
        } else {
            (OutputState::Closing, OutputActionView::Send(exit_message(told_exit(exit), false)))
        },
        (OutputState::OomWanted, OutputEvent::Oom(killed)) => (
            OutputState::Closing,
            OutputActionView::Send(
                exit_message(
                    KILLED_EXIT_CODE as int,
                    api::killed_for_memory(KILLED_EXIT_CODE as int, Some(killed)),
                ),
            ),
        ),
        _ => (OutputState::Done, OutputActionView::Finish),
    }
}

/// Pass on the output of a command: each piece of standard output and standard
/// error becomes a message; at its end, or when the client cannot be reached, the
/// exit code is sent, with a word on memory where the process was killed for
/// want of it. From the deadline on nothing is sent.
pub fn output_step(state: OutputState, event: OutputEvent) -> (r: (OutputState, OutputAction))
    ensures
        (r.0, r.1@) == output_next(state, event),
        state == OutputState::Streaming ==> match event {
            OutputEvent::Frame(OutputFrame::StdOut(b)) => r.1 is Send && r.1->Send_0.msg_type@
                == "stdout"@ && (valid_utf8(b@) ==> encode_utf8(r.1->Send_0.data@) == b@),
            OutputEvent::Frame(OutputFrame::StdErr(b)) => r.1 is Send && r.1->Send_0.msg_type@
                == "stderr"@ && (valid_utf8(b@) ==> encode_utf8(r.1->Send_0.data@) == b@),
            _ => true,
        },
{
    match (state, event) {
        (_, OutputEvent::Deadline) => (OutputState::Done, OutputAction::Finish),
        (OutputState::Streaming, OutputEvent::Frame(frame)) => match frame {
            OutputFrame::StdOut(b) => {
                let data = lossy_text(&b);
                proof {
                    if valid_utf8(b@) {
                        decode_utf8_encode_utf8(b@);
                    }
                }
                (OutputState::Streaming, OutputAction::Send(message("stdout", data)))
            },
            OutputFrame::StdErr(b) => {
                let data = lossy_text(&b);
                proof {
                    if valid_utf8(b@) {
                        decode_utf8_encode_utf8(b@);
                    }
                }
                (OutputState::Streaming, OutputAction::Send(message("stderr", data)))
            },
            OutputFrame::Other => (OutputState::Streaming, OutputAction::ReadOutput),
        },
        (OutputState::Streaming, OutputEvent::Sent(sent)) => if sent {
            (OutputState::Streaming, OutputAction::ReadOutput)
        } else {
            (OutputState::ExitWanted, OutputAction::InspectExec)
        },
        (OutputState::Streaming, OutputEvent::Ended) => (
            OutputState::ExitWanted,
            OutputAction::InspectExec,
        ),
        (OutputState::ExitWanted, OutputEvent::Exit(exit)) => {
            let exit_code: i64 = match exit {
                Ok(c) => c,
                Err(_) => -1,
            };
            if wants_oom_check(exit_code) {
                (OutputState::OomWanted, OutputAction::InspectContainer)
            } else {
                (OutputState::Closing, OutputAction::Send(exit_message_of(exit_code, false)))
            }
        },
        (OutputState::OomWanted, OutputEvent::Oom(killed)) => {
            let oom = oom_verdict(KILLED_EXIT_CODE, Some(killed));
            (OutputState::Closing, OutputAction::Send(exit_message_of(KILLED_EXIT_CODE, oom)))
        },
        _ => (OutputState::Done, OutputAction::Finish),
    }
}

// ---------------------------------------------------------------------------
// Input
// ---------------------------------------------------------------------------

/// What has happened to the input of a command.
#[derive(Debug)]
pub enum InputEvent {
    /// A text came, as the message that it holds, if any.
    Text(Option<WsClientMsg>),
    /// The client closes the session.
    Close,
    /// Another kind of frame came.
    Other,
    /// No more frames come, or they cannot be read.
    Ended,
    /// The command took its input, or did not.
    Written(bool),
    /// The session has lasted as long as it may.
    Deadline,
}

/// What is to be done about the input of a command.
#[derive(Debug)]
pub enum InputAction {
    ReadFrame,
    Write(String),
    /// Record activity in the sandbox, then read on.
    Touch,
    Stop,
}

/// Pass on what the client types. Input that was taken counts as activity; what
/// is no input is passed over.
pub fn input_step(event: InputEvent) -> (r: InputAction)
    ensures
        match event {
            InputEvent::Text(Some(WsClientMsg::Stdin { data })) => r == InputAction::Write(data),
            InputEvent::Text(None) => r is ReadFrame,
            InputEvent::Other => r is ReadFrame,
            InputEvent::Written(true) => r is Touch,
            InputEvent::Written(false) => r is Stop,
            InputEvent::Close => r is Stop,
            InputEvent::Ended => r is Stop,
            InputEvent::Deadline => r is Stop,
        },
{
    match event {
        InputEvent::Text(Some(WsClientMsg::Stdin { data })) => InputAction::Write(data),
        InputEvent::Text(None) => InputAction::ReadFrame,
        InputEvent::Other => InputAction::ReadFrame,
        InputEvent::Written(taken) => if taken {
            InputAction::Touch
        } else {
            InputAction::Stop
        },
        InputEvent::Close => InputAction::Stop,
        InputEvent::Ended => InputAction::Stop,
        InputEvent::Deadline => InputAction::Stop,
    }
}

// ---------------------------------------------------------------------------
// The deadline
// ---------------------------------------------------------------------------

/// What an event of the output counts as when `elapsed_secs` seconds have passed
/// since the command was started: past the time of a session, as its deadline.
pub fn timely_output(event: OutputEvent, elapsed_secs: u64) -> (r: OutputEvent)
    ensures
        r == if elapsed_secs >= WS_EXEC_TIMEOUT_SECS {
            OutputEvent::Deadline
        } else {
            event
        },
{
    if elapsed_secs >= WS_EXEC_TIMEOUT_SECS {
        OutputEvent::Deadline
    } else {
        event
    }
}

/// What an event of the input counts as when `elapsed_secs` seconds have passed
/// since the command was started: past the time of a session, as its deadline.
pub fn timely_input(event: InputEvent, elapsed_secs: u64) -> (r: InputEvent)
    ensures
        r == if elapsed_secs >= WS_EXEC_TIMEOUT_SECS {
            InputEvent::Deadline
        } else {
            event
        },
{
    if elapsed_secs >= WS_EXEC_TIMEOUT_SECS {
        InputEvent::Deadline
    } else {
        event
    }
}

/// Once the deadline has come, nothing more is sent, whatever the output was at
/// and whatever happens afterwards.
pub proof fn deadline_ends_the_output(state: OutputState, later: OutputEvent)
    ensures
        output_next(state, OutputEvent::Deadline) == (
            OutputState::Done,
            OutputActionView::Finish,
        ),
        output_next(OutputState::Done, later) == (OutputState::Done, OutputActionView::Finish),
{
}

// ---------------------------------------------------------------------------
// Whole sessions
// ---------------------------------------------------------------------------

/// The messages for a series of frames.
pub open spec fn transcript(frames: Seq<OutputFrame>) -> Seq<MessageView>
    decreases frames.len(),
{
    if frames.len() == 0 {
        Seq::empty()
    } else {
        transcript(frames.drop_last()) + match frame_message(frames.last()) {
            Some(m) => seq![m],
            None => Seq::empty(),
        }
    }
}

/// How many steps are left, at most, before output is read again.
pub open spec fn steps_left(state: OutputState, event: OutputEvent) -> nat {
    match (state, event) {
        (OutputState::Streaming, OutputEvent::Frame(_)) => 6,
        (OutputState::Streaming, OutputEvent::Sent(_)) => 5,
        (OutputState::Streaming, OutputEvent::Ended) => 4,
        (OutputState::ExitWanted, OutputEvent::Exit(_)) => 3,
        (OutputState::OomWanted, OutputEvent::Oom(_)) => 2,
        (OutputState::Closing, OutputEvent::Sent(_)) => 1,
        _ => 0,
    }
}

/// The messages that are sent from a state and an event on, while the frames
/// come one by one, every message arrives, and Docker answers as given.
pub open spec fn sent_from(
    state: OutputState,
    event: OutputEvent,
    frames: Seq<OutputFrame>,
    exit: Result<i64, DenError>,
    oom: Result<bool, DenError>,
) -> Seq<MessageView>
    decreases frames.len(), steps_left(state, event),
{
    let (next, action) = output_next(state, event);
    match action {
        OutputActionView::ReadOutput => if frames.len() == 0 {
            sent_from(next, OutputEvent::Ended, frames, exit, oom)
        } else {
            sent_from(next, OutputEvent::Frame(frames[0]), frames.drop_first(), exit, oom)
        },
        OutputActionView::Send(m) => seq![m] + sent_from(
            next,
            OutputEvent::Sent(true),
            frames,
            exit,
            oom,
        ),
        OutputActionView::InspectExec => sent_from(
            next,
            OutputEvent::Exit(exit),
            frames,
            exit,
            oom,
        ),
        OutputActionView::InspectContainer => sent_from(
            next,
            OutputEvent::Oom(oom),
            frames,
            exit,
            oom,
        ),
        OutputActionView::Finish => Seq::empty(),
    }
}

/// The client of a session sees the output in the order in which it came, and
/// then, once and last, the exit code.
pub proof fn session_tells_output_then_exit(
    frames: Seq<OutputFrame>,
    exit: Result<i64, DenError>,
    oom: Result<bool, DenError>,
)
    ensures
        sent_from(OutputState::Streaming, OutputEvent::Sent(true), frames, exit, oom)
            == transcript(frames).push(
            exit_message(told_exit(exit), api::killed_for_memory(told_exit(exit), Some(oom))),
        ),
    decreases frames.len(),
{
    let last = exit_message(told_exit(exit), api::killed_for_memory(told_exit(exit), Some(oom)));
    if frames.len() == 0 {
        lemma_closing(frames, exit, oom);
        assert(transcript(frames).push(last) =~= seq![last]);
    } else {
        let rest = frames.drop_first();
        session_tells_output_then_exit(rest, exit, oom);
        lemma_transcript_front(frames);
        let whole = sent_from(OutputState::Streaming, OutputEvent::Sent(true), frames, exit, oom);
        assert(whole == sent_from(
            OutputState::Streaming,
            OutputEvent::Frame(frames[0]),
            rest,
            exit,
            oom,
        ));
        let after = sent_from(OutputState::Streaming, OutputEvent::Sent(true), rest, exit, oom);
        match frame_message(frames[0]) {
            Some(m) => {
                assert(whole == seq![m] + after);
                assert(whole =~= transcript(frames).push(last));
            },
            None => {
                // Nothing is sent, and output is read as after a message.
                assert(output_next(OutputState::Streaming, OutputEvent::Frame(frames[0]))
                    == output_next(OutputState::Streaming, OutputEvent::Sent(true)));
                assert(whole == after);
                assert(transcript(frames) =~= transcript(rest));
            },
        }
    }
}

proof fn lemma_closing(
    frames: Seq<OutputFrame>,
    exit: Result<i64, DenError>,
    oom: Result<bool, DenError>,
)
    requires
        frames.len() == 0,
    ensures
        sent_from(OutputState::Streaming, OutputEvent::Sent(true), frames, exit, oom) == seq![
            exit_message(told_exit(exit), api::killed_for_memory(told_exit(exit), Some(oom))),
        ],
{
    reveal_with_fuel(sent_from, 6);
    let last = exit_message(told_exit(exit), api::killed_for_memory(told_exit(exit), Some(oom)));
    assert(sent_from(OutputState::Streaming, OutputEvent::Sent(true), frames, exit, oom)
        =~= seq![last]);
}

proof fn lemma_transcript_front(frames: Seq<OutputFrame>)
    requires
        frames.len() > 0,
    ensures
        transcript(frames) == (match frame_message(frames[0]) {
            Some(m) => seq![m],
            None => Seq::empty(),
        }) + transcript(frames.drop_first()),
    decreases frames.len(),
{
    let head = match frame_message(frames[0]) {
        Some(m) => seq![m],
        None => Seq::empty(),
    };
    if frames.len() == 1 {
        assert(frames.drop_last() =~= Seq::empty());
        assert(frames.drop_first() =~= Seq::empty());
        assert(transcript(frames) =~= head + transcript(frames.drop_first()));
    } else {
        lemma_transcript_front(frames.drop_last());
        assert(frames.drop_last().drop_first() =~= frames.drop_first().drop_last());
        assert(frames.drop_first().last() == frames.last());
        assert(transcript(frames) =~= head + transcript(frames.drop_first()));
    }
}

/// The data of the messages of one kind, put together.
pub open spec fn data_of(messages: Seq<MessageView>, msg_type: Seq<char>) -> Seq<char>
    decreases messages.len(),
{
    if messages.len() == 0 {
        Seq::empty()
    } else {
        data_of(messages.drop_last(), msg_type) + if messages.last().msg_type == msg_type {
            messages.last().data
        } else {
            Seq::empty()
        }
    }
}

/// A streamed command and a collected one tell the same: the data of the
/// `stdout` messages is the collected standard output, and that of the `stderr`
/// messages the collected standard error.
pub proof fn streaming_tells_what_collecting_tells(frames: Seq<OutputFrame>)
    ensures
        data_of(transcript(frames), "stdout"@) == docker::stream_text(frames, false),
        data_of(transcript(frames), "stderr"@) == docker::stream_text(frames, true),
    decreases frames.len(),
{
    reveal_strlit("stdout");
    reveal_strlit("stderr");
    assert("stdout"@[3] == 'o' && "stderr"@[3] == 'e');
    if frames.len() > 0 {
        let front = frames.drop_last();
        streaming_tells_what_collecting_tells(front);
        match frame_message(frames.last()) {
            Some(m) => {
                assert(transcript(frames).drop_last() =~= transcript(front));
                assert(transcript(frames).last() == m);
            },
            None => {
                assert(transcript(frames) =~= transcript(front));
            },
        }
        assert(data_of(transcript(frames), "stdout"@) =~= docker::stream_text(frames, false));
        assert(data_of(transcript(frames), "stderr"@) =~= docker::stream_text(frames, true));
    }
}

/// What a message shows is its kind, its data and its word on memory, all as they
/// are; what is to be done shows itself.
pub proof fn the_view_shows_the_message(m: WsServerMsg, a: OutputAction)
    ensures
        m@.msg_type == m.msg_type@,
        m@.data == m.data@,
        m@.oom_killed == m.oom_killed,
        match a {
            OutputAction::ReadOutput => a@ is ReadOutput,
            OutputAction::Send(m) => a@ == OutputActionView::Send(m@),
            OutputAction::InspectExec => a@ is InspectExec,
            OutputAction::InspectContainer => a@ is InspectContainer,
            OutputAction::Finish => a@ is Finish,
        },
{
}

/// A piece of output becomes a message of its kind that holds the text of all its
/// bytes; what is neither standard output nor standard error becomes none.
pub proof fn frames_become_messages(b: Vec<u8>)
    ensures
        frame_message(OutputFrame::StdOut(b)) == Some(
            MessageView { msg_type: "stdout"@, data: docker::lossy(b@), oom_killed: None },
        ),
        frame_message(OutputFrame::StdErr(b)) == Some(
            MessageView { msg_type: "stderr"@, data: docker::lossy(b@), oom_killed: None },
        ),
        frame_message(OutputFrame::Other) is None,
        forall|t: Seq<char>, d: Seq<char>| #[trigger]
            plain_message(t, d) == (MessageView { msg_type: t, data: d, oom_killed: None }),
{
}

/// The messages of a series of frames are those of its frames, in their order.
pub proof fn messages_come_in_order(frames: Seq<OutputFrame>, next: OutputFrame)
    ensures
        transcript(Seq::empty()).len() == 0,
        frame_message(next) is Some ==> transcript(frames.push(next)) == transcript(frames).push(
            frame_message(next)->0,
        ),
        frame_message(next) is None ==> transcript(frames.push(next)) == transcript(frames),
{
    assert(frames.push(next).drop_last() =~= frames);
    if frame_message(next) is Some {
        assert(transcript(frames.push(next)) =~= transcript(frames).push(frame_message(next)->0));
    } else {
        assert(transcript(frames.push(next)) =~= transcript(frames));
    }
}

/// The exit code is told in decimal, -1 where it is not known, and with a word on
/// memory only where the process was killed for want of it.
pub proof fn how_the_exit_is_told(code: i64, e: DenError, oom: bool)
    ensures
        told_exit(Ok(code)) == code,
        told_exit(Err(e)) == -1,
        exit_message(code as int, oom).msg_type == "exit"@,
        exit_message(code as int, oom).data == text::signed_decimal(code as int),
        code >= 0 ==> exit_message(code as int, oom).data == text::decimal(code as nat),
        code < 0 ==> exit_message(code as int, oom).data == seq!['-'] + text::decimal(
            (-code) as nat,
        ),
        exit_message(code as int, true).oom_killed == Some(true),
        exit_message(code as int, false).oom_killed is None,
{
}

/// How a session goes on: a message is sent for each piece of output, and read on
/// after it; where the output ends or the client cannot be reached, the exit code is
/// asked for; where it is 137, the container is asked about memory; then the exit is
/// told, and the session is over.
pub proof fn how_a_session_goes_on(
    b: Vec<u8>,
    exit: Result<i64, DenError>,
    killed: Result<bool, DenError>,
    sent: bool,
)
    ensures
        output_next(OutputState::Streaming, OutputEvent::Frame(OutputFrame::StdOut(b))) == (
            OutputState::Streaming,
            OutputActionView::Send(
                MessageView { msg_type: "stdout"@, data: docker::lossy(b@), oom_killed: None },
            ),
        ),
        output_next(OutputState::Streaming, OutputEvent::Frame(OutputFrame::StdErr(b))) == (
            OutputState::Streaming,
            OutputActionView::Send(
                MessageView { msg_type: "stderr"@, data: docker::lossy(b@), oom_killed: None },
            ),
        ),
        output_next(OutputState::Streaming, OutputEvent::Frame(OutputFrame::Other)) == (
            OutputState::Streaming,
            OutputActionView::ReadOutput,
        ),
        output_next(OutputState::Streaming, OutputEvent::Sent(true)) == (
            OutputState::Streaming,
            OutputActionView::ReadOutput,
        ),
        output_next(OutputState::Streaming, OutputEvent::Sent(false)) == (
            OutputState::ExitWanted,
            OutputActionView::InspectExec,
        ),
        output_next(OutputState::Streaming, OutputEvent::Ended) == (
            OutputState::ExitWanted,
            OutputActionView::InspectExec,
        ),
        output_next(OutputState::ExitWanted, OutputEvent::Exit(exit)) == if exit is Ok
            && exit->Ok_0 == 137 {
            (OutputState::OomWanted, OutputActionView::InspectContainer)
        } else {
            (
                OutputState::Closing,
                OutputActionView::Send(
                    MessageView {
                        msg_type: "exit"@,
                        data: text::signed_decimal(
                            if exit is Ok {
                                exit->Ok_0 as int
                            } else {
                                -1
                            },
                        ),
                        oom_killed: None,
                    },
                ),
            )
        },
        output_next(OutputState::OomWanted, OutputEvent::Oom(killed)) == (
            OutputState::Closing,
            OutputActionView::Send(
                MessageView {
                    msg_type: "exit"@,
                    data: text::signed_decimal(137),
                    oom_killed: if killed is Ok && killed->Ok_0 {
                        Some(true)
                    } else {
                        None
                    },
                },
            ),
        ),
        output_next(OutputState::Closing, OutputEvent::Sent(sent)) == (
            OutputState::Done,
            OutputActionView::Finish,
        ),
{
}

/// The data of the messages of one kind are put together in their order.
pub proof fn data_is_put_together_in_order(
    messages: Seq<MessageView>,
    next: MessageView,
    msg_type: Seq<char>,
)
    ensures
        data_of(Seq::empty(), msg_type).len() == 0,
        next.msg_type == msg_type ==> data_of(messages.push(next), msg_type) == data_of(
            messages,
            msg_type,
        ) + next.data,
        next.msg_type != msg_type ==> data_of(messages.push(next), msg_type) == data_of(
            messages,
            msg_type,
        ),
{
    assert(messages.push(next).drop_last() =~= messages);
}

/// A session may last an hour, and a message of the client 64 kibibytes.
pub proof fn limits_of_a_session()
    ensures
        WS_EXEC_TIMEOUT_SECS == 60 * 60,
        MAX_MESSAGE_BYTES == 64 * 1024,
{
}

/// A piece of output is passed on whole: the data of its message encodes to just its
/// bytes, where they are UTF-8, and the message is of the kind of its stream.
pub proof fn output_is_passed_on_whole(
    b: Vec<u8>,
    out: (OutputState, OutputAction),
    err: (OutputState, OutputAction),
)
    requires
        call_ensures(
            output_step,
            (OutputState::Streaming, OutputEvent::Frame(OutputFrame::StdOut(b))),
            out,
        ),
        call_ensures(
            output_step,
            (OutputState::Streaming, OutputEvent::Frame(OutputFrame::StdErr(b))),
            err,
        ),
    ensures
        out.1 is Send && out.1->Send_0.msg_type@ == "stdout"@,
        err.1 is Send && err.1->Send_0.msg_type@ == "stderr"@,
        out.1->Send_0.data@ == docker::lossy(b@),
        err.1->Send_0.data@ == docker::lossy(b@),
        out.1->Send_0.oom_killed is None && err.1->Send_0.oom_killed is None,
        valid_utf8(b@) ==> encode_utf8(out.1->Send_0.data@) == b@,
        out.0 is Streaming && err.0 is Streaming,
{
}

/// A session starts with the command that the first text holds; a text without one is
/// answered with an error, and anything else closes the session.
pub proof fn how_sessions_start(start: WsExecStart, e: String, run: Opening, bad: Opening, shut: Opening)
    requires
        call_ensures(open_session, (FirstFrame::Text(Ok(start)),), run),
        call_ensures(open_session, (FirstFrame::Text(Err(e)),), bad),
        call_ensures(open_session, (FirstFrame::Other,), shut),
    ensures
        run == Opening::Run(start),
        bad is Refuse,
        bad->Refuse_0.msg_type@ == "error"@,
        bad->Refuse_0.data@ == "invalid start message: "@ + e@,
        bad->Refuse_0.oom_killed is None,
        shut is Close,
{
}

/// A command that could not be started is told as an error with the error's own words.
pub proof fn failed_starts_are_told(e: &DenError, r: WsServerMsg)
    requires
        call_ensures(start_failed, (e,), r),
    ensures
        r.msg_type@ == "error"@,
        r.data@ == error::message_of(e@),
        r.oom_killed is None,
{
}

/// What the client types is written as it is, and counts as activity once the command
/// has taken it; other frames are passed over, and the input ends with the session.
pub proof fn how_input_is_passed_on(
    data: String,
    typed: InputAction,
    garbled: InputAction,
    other: InputAction,
    taken: InputAction,
    refused: InputAction,
    closed: InputAction,
    ended: InputAction,
    late: InputAction,
)
    requires
        call_ensures(input_step, (InputEvent::Text(Some(WsClientMsg::Stdin { data })),), typed),
        call_ensures(input_step, (InputEvent::Text(None),), garbled),
        call_ensures(input_step, (InputEvent::Other,), other),
        call_ensures(input_step, (InputEvent::Written(true),), taken),
        call_ensures(input_step, (InputEvent::Written(false),), refused),
        call_ensures(input_step, (InputEvent::Close,), closed),
        call_ensures(input_step, (InputEvent::Ended,), ended),
        call_ensures(input_step, (InputEvent::Deadline,), late),
    ensures
        typed == InputAction::Write(data),
        garbled is ReadFrame && other is ReadFrame,
        taken is Touch,
        refused is Stop && closed is Stop && ended is Stop && late is Stop,
{
}

/// Up to an hour after the start every event counts as what it is, and from then on as
/// the deadline.
pub proof fn sessions_last_an_hour(
    output: OutputEvent,
    input: InputEvent,
    elapsed_secs: u64,
    o: OutputEvent,
    i: InputEvent,
)
    requires
        call_ensures(timely_output, (output, elapsed_secs), o),
        call_ensures(timely_input, (input, elapsed_secs), i),
    ensures
        elapsed_secs < 3600 ==> o == output && i == input,
        elapsed_secs >= 3600 ==> o is Deadline && i is Deadline,
{
}

} // verus!
