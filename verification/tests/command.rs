use chat_with_rust::addr::PeerAddr;
use chat_with_rust::command::parser::{read_addr, read_str, CommandParser, ParserHandler, SystemCall};
use chat_with_rust::command::plainer::{CallOutcome, CommandStep, CommendExecResult, CommendPlainer};
use chat_with_rust::command::status::CommandStatusCtx;

fn peer(s: &str) -> PeerAddr {
    PeerAddr::from_text(s.to_string())
}

fn ok_addr(s: &str) -> Result<PeerAddr, String> {
    Ok(peer(s))
}

fn bad_addr() -> Result<PeerAddr, String> {
    Err("invalid socket address syntax".to_string())
}

fn words(v: &[&str]) -> Vec<String> {
    v.iter().map(|w| w.to_string()).collect()
}

fn describe(c: &SystemCall) -> String {
    match c {
        SystemCall::ConnTcpSocket(a) => format!("conn {}", a.as_str()),
        SystemCall::DisconnectTcpSocket(a) => format!("disconn {}", a.as_str()),
        SystemCall::UnsafeMsgbox(a, m) => format!("msgbox {} [{}]", a.as_str(), m),
        SystemCall::ConnStatus => "status".to_string(),
        SystemCall::ChatWith(a) => format!("chatwith {}", a.as_str()),
        SystemCall::ChatMsg(m) => format!("chatmsg [{}]", m),
        SystemCall::Exception(e) => format!("exception [{}]", e),
        SystemCall::Unknown => "unknown".to_string(),
    }
}

fn parse(cmd: &str, addr: Result<PeerAddr, String>) -> String {
    describe(&CommandParser::parse(cmd, addr))
}

#[test]
fn parse_conn_and_disconn() {
    assert_eq!(parse("conn 127.0.0.1:8080", ok_addr("127.0.0.1:8080")), "conn 127.0.0.1:8080");
    assert_eq!(parse("  disconn   [::1]:80 ", ok_addr("[::1]:80")), "disconn [::1]:80");
    assert_eq!(parse("conn", ok_addr("1.1.1.1:1")), "exception [no addr given in conn]");
    assert_eq!(parse("disconn", ok_addr("1.1.1.1:1")), "exception [no addr given in conn]");
    assert_eq!(
        parse("conn nowhere", bad_addr()),
        "exception [invalid addr: invalid socket address syntax]"
    );
}

#[test]
fn parse_msgbox_and_short_name() {
    assert_eq!(
        parse("msgbox 10.0.0.1:9 hello   big world", ok_addr("10.0.0.1:9")),
        "msgbox 10.0.0.1:9 [hello big world]"
    );
    assert_eq!(
        parse("msg! 10.0.0.1:9 hello   big world", ok_addr("10.0.0.1:9")),
        "msgbox 10.0.0.1:9 [hello big world]"
    );
    assert_eq!(parse("msg! 10.0.0.1:9", ok_addr("10.0.0.1:9")), "msgbox 10.0.0.1:9 []");
    assert_eq!(parse("msg!", ok_addr("10.0.0.1:9")), "exception [no addr given]");
    assert_eq!(parse("msgbox x y", bad_addr()), "exception [invalid socket address syntax]");
}

#[test]
fn parse_status_and_chat() {
    assert_eq!(parse("connsta", bad_addr()), "status");
    assert_eq!(parse("sta! extra", bad_addr()), "status");
    assert_eq!(parse("chatwith 1.2.3.4:5", ok_addr("1.2.3.4:5")), "chatwith 1.2.3.4:5");
    assert_eq!(parse("cw! 1.2.3.4:5", ok_addr("1.2.3.4:5")), "chatwith 1.2.3.4:5");
    assert_eq!(parse("cw!", ok_addr("1.2.3.4:5")), "exception [no addr given]");
    assert_eq!(parse("chatmsg good  morning", bad_addr()), "chatmsg [good morning]");
    assert_eq!(parse("chat!", bad_addr()), "chatmsg []");
}

#[test]
fn parse_nothing_and_unknown() {
    assert_eq!(parse("", bad_addr()), "exception [no name given in command]");
    assert_eq!(parse("   ", bad_addr()), "exception [no name given in command]");
    assert_eq!(parse("hello there", bad_addr()), "unknown");
    assert_eq!(parse("CONN 1.2.3.4:5", ok_addr("1.2.3.4:5")), "unknown");
}

#[test]
fn address_word_is_the_second() {
    assert_eq!(CommandParser::address_word("conn  1.2.3.4:5 x"), Some("1.2.3.4:5".to_string()));
    assert_eq!(CommandParser::address_word("conn"), None);
    assert_eq!(CommandParser::address_word(""), None);
}

#[test]
fn handlers_and_tools() {
    let args = words(&["1.2.3.4:5", "hi", "there"]);
    assert_eq!(read_str(&args), "1.2.3.4:5 hi there");
    assert_eq!(read_str(&vec![]), "");
    assert_eq!(read_addr(&vec![], ok_addr("1.2.3.4:5")).err(), Some("no addr given".to_string()));
    assert_eq!(read_addr(&args, ok_addr("1.2.3.4:5")).map(|a| a.as_str().to_string()), Ok("1.2.3.4:5".to_string()));
    assert_eq!(describe(&ParserHandler::hd_conn_cmd(&args, ok_addr("1.2.3.4:5"))), "conn 1.2.3.4:5");
    assert_eq!(describe(&ParserHandler::hd_dis_conn_cmd(&vec![], bad_addr())), "exception [no addr given in conn]");
    assert_eq!(describe(&ParserHandler::hd_unsafe_msgbox(&args, ok_addr("1.2.3.4:5"))), "msgbox 1.2.3.4:5 [hi there]");
    assert_eq!(describe(&ParserHandler::hd_chat_with(&args, bad_addr())), "exception [invalid socket address syntax]");
    assert_eq!(describe(&ParserHandler::hd_chat_send_msg(&args)), "chatmsg [1.2.3.4:5 hi there]");
    assert_eq!(describe(&SystemCall::by_name(&"sta!".to_string(), &args, bad_addr())), "status");
}

fn finished(step: CommandStep) -> (Vec<String>, bool) {
    match step {
        CommandStep::Finished(r) => {
            let clear = r.need_clear();
            (r.output(), clear)
        }
        CommandStep::Call(c) => panic!("expected output, got call {}", describe(&c)),
    }
}

#[test]
fn plan_empty_unknown_and_bad_commands() {
    assert_eq!(
        finished(CommendPlainer::plan("", bad_addr(), Some(80))),
        (vec!["[Error] Command cannot be empty".to_string()], false)
    );
    assert_eq!(
        finished(CommendPlainer::plan("fly away", bad_addr(), Some(80))),
        (vec!["[Error] Unknown command".to_string()], false)
    );
    assert_eq!(
        finished(CommendPlainer::plan("conn", bad_addr(), Some(80))),
        (vec!["[Error] Error on exec command:no addr given in conn".to_string()], false)
    );
    assert_eq!(
        finished(CommendPlainer::plan("   ", bad_addr(), None)),
        (vec!["[Error] Error on exec command:no name given in command".to_string()], false)
    );
}

#[test]
fn plan_gives_the_call() {
    match CommendPlainer::plan("conn 1.2.3.4:5", ok_addr("1.2.3.4:5"), Some(80)) {
        CommandStep::Call(c) => assert_eq!(describe(&c), "conn 1.2.3.4:5"),
        CommandStep::Finished(_) => panic!("expected a call"),
    }
}

fn done(call: SystemCall, outcome: CallOutcome) -> (Vec<String>, bool) {
    let r = CommendPlainer::finish(&call, outcome, Some(120));
    let clear = r.need_clear();
    (r.output(), clear)
}

#[test]
fn finish_reports_each_outcome() {
    assert_eq!(
        done(SystemCall::ConnTcpSocket(peer("1.2.3.4:5")), CallOutcome::Done),
        (vec!["[Info] Connection successful to 1.2.3.4:5".to_string()], false)
    );
    assert_eq!(
        done(SystemCall::ConnTcpSocket(peer("1.2.3.4:5")), CallOutcome::Failed("refused".to_string())),
        (vec!["[Error] Error on Connect Tcp: refused".to_string()], false)
    );
    assert_eq!(
        done(SystemCall::DisconnectTcpSocket(peer("1.2.3.4:5")), CallOutcome::Done),
        (vec!["[Info] 已主动断开连接，将在结束使用后结束连接".to_string()], false)
    );
    assert_eq!(
        done(SystemCall::DisconnectTcpSocket(peer("1.2.3.4:5")), CallOutcome::Failed("不存在的远端主机！".to_string())),
        (vec!["[Error] Error on Disconnect Tcp: 不存在的远端主机！".to_string()], false)
    );
    assert_eq!(
        done(SystemCall::UnsafeMsgbox(peer("1.2.3.4:5"), "x".to_string()), CallOutcome::Done),
        (vec!["[Info] 消息发送成功".to_string()], false)
    );
    assert_eq!(
        done(SystemCall::UnsafeMsgbox(peer("1.2.3.4:5"), "x".to_string()), CallOutcome::Failed("No Conn on 1.2.3.4:5".to_string())),
        (vec!["[Error] Error on Send msgbox：No Conn on 1.2.3.4:5".to_string()], false)
    );
    assert_eq!(
        done(SystemCall::ConnStatus, CallOutcome::Lines(vec!["a".to_string(), "b".to_string()])),
        (vec!["a".to_string(), "b".to_string()], true)
    );
    assert_eq!(
        done(SystemCall::ConnStatus, CallOutcome::Failed("e".to_string())),
        (vec!["[Error] Error on Get connect status：e".to_string()], false)
    );
    assert_eq!(
        done(SystemCall::ChatWith(peer("1.2.3.4:5")), CallOutcome::Lines(vec!["h".to_string()])),
        (vec!["h".to_string()], true)
    );
    assert_eq!(
        done(SystemCall::ChatMsg("hi".to_string()), CallOutcome::Failed("No chat selected".to_string())),
        (vec!["[Error] Error on Chat: No chat selected".to_string()], false)
    );
    assert_eq!(
        done(SystemCall::Unknown, CallOutcome::Done),
        (vec!["[Error] Unknown command".to_string()], false)
    );
}

#[test]
fn exec_result_starts_empty() {
    let r = CommendExecResult::new();
    assert!(!r.need_clear());
    assert!(r.output().is_empty());
}

#[test]
fn status_text_counts() {
    let mut s = CommandStatusCtx::new();
    assert_eq!(s.to_text(), "累计输入字符：0  累计输入命令：0 最后一次执行的命令：");
    s.typed_alpha = 12;
    s.typed_command = 3;
    s.last_command = "conn x".to_string();
    assert_eq!(s.to_text(), "累计输入字符：12  累计输入命令：3 最后一次执行的命令：conn x");
}
