use super::parser::{outcome_view, spec_parse, CallModel, CommandParser, SystemCall};
use crate::addr::PeerAddr;
use crate::log_fmt::{encodings, log_lines, LogFormatter};
use vstd::prelude::*;

verus! {

/// What running a command printed: the lines, and whether the screen is cleared first.
pub struct CommendExecResult {
    output: Vec<String>,
    need_clear: bool,
}

impl CommendExecResult {
    /// The lines, as UTF-8 bytes.
    pub closed spec fn lines(&self) -> Seq<Seq<u8>> {
        encodings(self.output@)
    }

    /// Whether the screen is cleared before the lines are written.
    pub closed spec fn clears(&self) -> bool {
        self.need_clear
    }

    /// The lines, as strings.
    pub closed spec fn texts(&self) -> Seq<Seq<char>> {
        self.output@.map_values(|s: String| s@)
    }

    /// No lines, no clearing.
    pub fn new() -> (r: CommendExecResult)
        ensures
            r.lines() == Seq::<Seq<u8>>::empty(),
            !r.clears(),
    {
        let r = CommendExecResult { output: Vec::new(), need_clear: false };
        proof {
            assert(r.lines() =~= Seq::<Seq<u8>>::empty());
        }
        r
    }

    /// Whether the screen is cleared before the lines are written.
    pub fn need_clear(&self) -> (r: bool)
        ensures
            r == self.clears(),
    {
        self.need_clear
    }

    /// The lines.
    pub fn output(self) -> (r: Vec<String>)
        ensures
            encodings(r@) == self.lines(),
            r@.map_values(|s: String| s@) == self.texts(),
    {
        self.output
    }

    fn with_lines(output: Vec<String>, need_clear: bool) -> (r: CommendExecResult)
        ensures
            r.lines() == encodings(output@),
            r.texts() == output@.map_values(|s: String| s@),
            r.clears() == need_clear,
    {
        CommendExecResult { output, need_clear }
    }
}

/// What the outside work of a call came to.
pub enum CallOutcome {
    /// It was done.
    Done,
    /// It was done and gave these lines to show on a cleared screen.
    Lines(Vec<String>),
    /// It failed, for the reason given.
    Failed(String),
}

/// A `CallOutcome` with texts as character sequences and lines as UTF-8 bytes.
pub enum OutcomeModel {
    Done,
    Lines(Seq<Seq<u8>>),
    Failed(Seq<char>),
}

impl View for CallOutcome {
    type V = OutcomeModel;

    open spec fn view(&self) -> OutcomeModel {
        match self {
            CallOutcome::Done => OutcomeModel::Done,
            CallOutcome::Lines(v) => OutcomeModel::Lines(encodings(v@)),
            CallOutcome::Failed(e) => OutcomeModel::Failed(e@),
        }
    }
}

/// The next step of running a command line.
pub enum CommandStep {
    /// Nothing is to be done outside: this is what to show.
    Finished(CommendExecResult),
    /// The call is to be carried out; `CommendPlainer::finish` then says what to show.
    Call(SystemCall),
}

/// The lines of an error message.
pub open spec fn error_lines(message: Seq<char>, width: Option<u16>) -> Seq<Seq<u8>> {
    log_lines(message, "[Error] "@, width)
}

/// The lines of an informational message.
pub open spec fn info_lines(message: Seq<char>, width: Option<u16>) -> Seq<Seq<u8>> {
    log_lines(message, "[Info] "@, width)
}

/// What running a command line starts with: the lines to show and whether to clear the
/// screen, or the call to carry out.
pub open spec fn spec_plan(
    command: Seq<char>,
    addr: Result<Seq<char>, Seq<char>>,
    width: Option<u16>,
) -> Result<(Seq<Seq<u8>>, bool), CallModel> {
    if command.len() == 0 {
        Ok((error_lines("Command cannot be empty"@, width), false))
    } else {
        match spec_parse(command, addr) {
            CallModel::Unknown => Ok((error_lines("Unknown command"@, width), false)),
            CallModel::Exception(e) => Ok(
                (error_lines("Error on exec command:"@ + e, width), false),
            ),
            call => Err(call),
        }
    }
}

/// What to show once a call's outside work came to `outcome`.
pub open spec fn spec_finish(call: CallModel, outcome: OutcomeModel, width: Option<u16>) -> (
    Seq<Seq<u8>>,
    bool,
) {
    match call {
        CallModel::ConnTcpSocket(a) => match outcome {
            OutcomeModel::Failed(e) => (error_lines("Error on Connect Tcp: "@ + e, width), false),
            _ => (info_lines("Connection successful to "@ + a, width), false),
        },
        CallModel::DisconnectTcpSocket(_) => match outcome {
            OutcomeModel::Failed(e) => (
                error_lines("Error on Disconnect Tcp: "@ + e, width),
                false,
            ),
            _ => (info_lines("已主动断开连接，将在结束使用后结束连接"@, width), false),
        },
        CallModel::UnsafeMsgbox(_, _) => match outcome {
            OutcomeModel::Failed(e) => (error_lines("Error on Send msgbox："@ + e, width), false),
            _ => (info_lines("消息发送成功"@, width), false),
        },
        CallModel::ConnStatus => match outcome {
            OutcomeModel::Failed(e) => (
                error_lines("Error on Get connect status："@ + e, width),
                false,
            ),
            OutcomeModel::Lines(lines) => (lines, true),
            OutcomeModel::Done => (seq![], true),
        },
        CallModel::ChatWith(_) | CallModel::ChatMsg(_) => match outcome {
            OutcomeModel::Failed(e) => (error_lines("Error on Chat: "@ + e, width), false),
            OutcomeModel::Lines(lines) => (lines, true),
            OutcomeModel::Done => (seq![], false),
        },
        CallModel::Exception(e) => (error_lines("Error on exec command:"@ + e, width), false),
        CallModel::Unknown => (error_lines("Unknown command"@, width), false),
    }
}

/// A call whose outside work gave lines (the status report, or the open chat after
/// `chatwith` or `chatmsg`) shows exactly those lines on a cleared screen; a call that
/// failed never clears the screen.
pub proof fn lemma_finish_lines_and_failures(
    call: CallModel,
    lines: Seq<Seq<u8>>,
    e: Seq<char>,
    width: Option<u16>,
)
    ensures
        (call is ConnStatus || call is ChatWith || call is ChatMsg) ==> spec_finish(
            call,
            OutcomeModel::Lines(lines),
            width,
        ) == (lines, true),
        !spec_finish(call, OutcomeModel::Failed(e), width).1,
{
}

fn message_with(lit: &str, tail: &str) -> (r: String)
    ensures
        r@ == lit@ + tail@,
{
    let mut m = String::from_str(lit);
    m.append(tail);
    m
}

fn error_result(message: &str, width: Option<u16>) -> (r: CommendExecResult)
    ensures
        r.lines() == error_lines(message@, width),
        !r.clears(),
{
    CommendExecResult::with_lines(LogFormatter::lines_for(message, "[Error] ", width), false)
}

fn info_result(message: &str, width: Option<u16>) -> (r: CommendExecResult)
    ensures
        r.lines() == info_lines(message@, width),
        !r.clears(),
{
    CommendExecResult::with_lines(LogFormatter::lines_for(message, "[Info] ", width), false)
}

/// Runs command lines: decodes them, and says what to show once their calls are done.
pub struct CommendPlainer;

impl CommendPlainer {
    /// The first step of running a command line. `addr` is what reading its second word
    /// as a socket address gave; `width` is the terminal's width, where known.
    pub fn plan(command: &str, addr: Result<PeerAddr, String>, width: Option<u16>) -> (r: CommandStep)
        ensures
            match r {
                CommandStep::Finished(res) => spec_plan(command@, outcome_view(addr), width) == Ok::<
                    (Seq<Seq<u8>>, bool),
                    CallModel,
                >((res.lines(), res.clears())),
                CommandStep::Call(call) => spec_plan(command@, outcome_view(addr), width) == Err::<
                    (Seq<Seq<u8>>, bool),
                    CallModel,
                >(call@),
            },
    {
        if command.is_empty() {
            return CommandStep::Finished(error_result("Command cannot be empty", width));
        }
        let call = CommandParser::parse(command, addr);
        match call {
            SystemCall::Unknown => CommandStep::Finished(error_result("Unknown command", width)),
            SystemCall::Exception(e) => {
                let m = message_with("Error on exec command:", e.as_str());
                CommandStep::Finished(error_result(m.as_str(), width))
            },
            other => CommandStep::Call(other),
        }
    }

    /// What to show once the outside work of `call` came to `outcome`.
    pub fn finish(call: &SystemCall, outcome: CallOutcome, width: Option<u16>) -> (r: CommendExecResult)
        ensures
            (r.lines(), r.clears()) == spec_finish(call@, outcome@, width),
    {
        match call {
            SystemCall::ConnTcpSocket(a) => match outcome {
                CallOutcome::Failed(e) => error_result(
                    message_with("Error on Connect Tcp: ", e.as_str()).as_str(),
                    width,
                ),
                _ => info_result(message_with("Connection successful to ", a.as_str()).as_str(), width),
            },
            SystemCall::DisconnectTcpSocket(_) => match outcome {
                CallOutcome::Failed(e) => error_result(
                    message_with("Error on Disconnect Tcp: ", e.as_str()).as_str(),
                    width,
                ),
                _ => info_result("已主动断开连接，将在结束使用后结束连接", width),
            },
            SystemCall::UnsafeMsgbox(_, _) => match outcome {
                CallOutcome::Failed(e) => error_result(
                    message_with("Error on Send msgbox：", e.as_str()).as_str(),
                    width,
                ),
                _ => info_result("消息发送成功", width),
            },
            SystemCall::ConnStatus => match outcome {
                CallOutcome::Failed(e) => error_result(
                    message_with("Error on Get connect status：", e.as_str()).as_str(),
                    width,
                ),
                CallOutcome::Lines(lines) => CommendExecResult::with_lines(lines, true),
                CallOutcome::Done => {
                    let r = CommendExecResult::with_lines(Vec::new(), true);
                    proof {
                        assert(r.lines() =~= Seq::<Seq<u8>>::empty());
                    }
                    r
                },
            },
            SystemCall::ChatWith(_) | SystemCall::ChatMsg(_) => match outcome {
                CallOutcome::Failed(e) => error_result(
                    message_with("Error on Chat: ", e.as_str()).as_str(),
                    width,
                ),
                CallOutcome::Lines(lines) => CommendExecResult::with_lines(lines, true),
                CallOutcome::Done => CommendExecResult::new(),
            },
            SystemCall::Exception(e) => error_result(
                message_with("Error on exec command:", e.as_str()).as_str(),
                width,
            ),
            SystemCall::Unknown => error_result("Unknown command", width),
        }
    }
}

} // verus!
