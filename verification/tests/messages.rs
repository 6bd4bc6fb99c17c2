use chat_with_rust::addr::PeerAddr;
use chat_with_rust::chat::ChatCtx;
use chat_with_rust::command::call_hd::CmdCallHandler;
use chat_with_rust::conn::{split_by_liveness, ConnCtx, MetaSocketAddr};
use chat_with_rust::frame::{frame_bytes, FrameBuffer, FrameScan, MESSAGE_SPLITTER};
use chat_with_rust::message::{BaseChatMessageBody, BaseSocketMessageBody, FrameBody, SocketBodyType, TransError};

fn peer(s: &str) -> PeerAddr {
    PeerAddr::from_text(s.to_string())
}

#[test]
fn raw_messages() {
    let m = BaseSocketMessageBody::make_raw("msgbox".to_string(), Some("hi".to_string()));
    assert_eq!(m.content_type, SocketBodyType::Raw);
    assert_eq!(m.end_point, "msgbox");
    assert_eq!(m.be_raw(), "hi");
    assert_eq!(BaseSocketMessageBody::make_raw("x".to_string(), None).be_raw(), "");
    assert!(matches!(
        BaseSocketMessageBody::make_raw("x".to_string(), Some("t".to_string())).json_payload(),
        Err(TransError::RawData)
    ));
    assert!(matches!(BaseSocketMessageBody::make_raw("x".to_string(), None).json_payload(), Ok(None)));
}

#[test]
fn binary_messages_roundtrip() {
    let m = BaseSocketMessageBody::make_bin("data".to_string(), b"hi");
    assert_eq!(m.content_type, SocketBodyType::Base64);
    let (_, _, body) = m.into_parts();
    assert_eq!(body, Some("aGk=".to_string()));
    let m = BaseSocketMessageBody::make_bin("data".to_string(), b"{\"a\":1}");
    match m.json_payload() {
        Ok(Some(v)) => assert_eq!(v, b"{\"a\":1}".to_vec()),
        _ => panic!("expected bytes"),
    }
    let bad = BaseSocketMessageBody::from_parts("d".to_string(), SocketBodyType::Base64, Some("!!!".to_string()));
    assert!(matches!(bad.json_payload(), Err(TransError::Base64(_))));
}

#[test]
fn json_messages() {
    let m = BaseSocketMessageBody::make_json("chat".to_string(), "{\"x\":2}".to_string());
    assert_eq!(m.content_type, SocketBodyType::Json);
    match m.json_payload() {
        Ok(Some(v)) => assert_eq!(v, b"{\"x\":2}".to_vec()),
        _ => panic!("expected bytes"),
    }
}

#[test]
fn msgbox_notice_only_for_msgbox() {
    let f = FrameBody::new(
        BaseSocketMessageBody::make_raw("msgbox".to_string(), Some("hello".to_string())),
        peer("1.2.3.4:5"),
    );
    assert_eq!(
        f.hd_message_event(Some(200)),
        Some(vec!["[Info] A msgbox from 1.2.3.4:5 is : hello".to_string()])
    );
    let f = FrameBody::new(
        BaseSocketMessageBody::make_raw("chat".to_string(), Some("hello".to_string())),
        peer("1.2.3.4:5"),
    );
    assert_eq!(f.hd_message_event(Some(200)), None);
}

#[test]
fn frames_are_split_at_the_splitter() {
    assert_eq!(MESSAGE_SPLITTER, b'\n');
    assert_eq!(frame_bytes("{\"a\":1}"), b"{\"a\":1}\n".to_vec());
    let mut fb = FrameBuffer::new();
    let chunk = b"abc\nde";
    match fb.scan(chunk, 0) {
        FrameScan::Frame { frame, next } => {
            assert_eq!(frame, b"abc".to_vec());
            assert_eq!(next, 4);
        }
        FrameScan::NeedMore => panic!("expected a frame"),
    }
    fb.accept();
    assert!(matches!(fb.scan(chunk, 4), FrameScan::NeedMore));
    match fb.scan(b"f\nrest", 0) {
        FrameScan::Frame { frame, next } => {
            assert_eq!(frame, b"def".to_vec());
            assert_eq!(next, 2);
        }
        FrameScan::NeedMore => panic!("expected a frame"),
    }
}

#[test]
fn an_unaccepted_frame_stays_held() {
    let mut fb = FrameBuffer::new();
    assert!(matches!(fb.scan(b"bad\n", 0), FrameScan::Frame { .. }));
    match fb.scan(b"ok\n", 0) {
        FrameScan::Frame { frame, .. } => assert_eq!(frame, b"badok".to_vec()),
        FrameScan::NeedMore => panic!("expected a frame"),
    }
}

#[test]
fn connection_tables() {
    let mut c: ConnCtx<u32> = ConnCtx::new(peer("127.0.0.1:7000"));
    assert_eq!(c.addr().as_str(), "127.0.0.1:7000");
    c.add_server(peer("1.1.1.1:1"), 10);
    c.add_client(peer("2.2.2.2:2"), 20);
    c.add_client(peer("1.1.1.1:1"), 30);
    assert_eq!(c.addr_stream(&peer("1.1.1.1:1")), Some(&30));
    assert_eq!(c.addr_stream(&peer("2.2.2.2:2")), Some(&20));
    assert_eq!(c.server_stream(&peer("1.1.1.1:1")), Some(&10));
    assert_eq!(c.client_stream(&peer("9.9.9.9:9")), None);
    assert_eq!(c.addr_stream(&peer("9.9.9.9:9")), None);
    assert_eq!(c.stream_for_send(&peer("1.1.1.1:1")), Ok(&30));
    assert_eq!(c.stream_for_send(&peer("9.9.9.9:9")), Err("No Conn on 9.9.9.9:9".to_string()));
    let targets = c.status_targets();
    let texts: Vec<String> = targets.iter().map(|t| t.to_text()).collect();
    assert_eq!(texts, vec![
        "2.2.2.2:2 (Conn to Client)",
        "1.1.1.1:1 (Conn to Client)",
        "1.1.1.1:1 (Conn to Server)",
    ]);
    assert_eq!(*c.target_stream(2), 10);
    assert_eq!(c.try_disconnect_server(&peer("1.1.1.1:1")), Ok(10));
    assert_eq!(c.try_disconnect_server(&peer("1.1.1.1:1")), Err("不存在的远端主机！".to_string()));
    c.add_server(peer("3.3.3.3:3"), 40);
    c.add_server(peer("3.3.3.3:3"), 41);
    assert_eq!(c.server_stream(&peer("3.3.3.3:3")), Some(&41));
}

#[test]
fn status_report() {
    let targets = vec![
        MetaSocketAddr::pkg(peer("1.1.1.1:1"), "(Conn to Client)".to_string()),
        MetaSocketAddr::pkg(peer("2.2.2.2:2"), "(Conn to Server)".to_string()),
        MetaSocketAddr::pkg(peer("3.3.3.3:3"), "(Conn to Server)".to_string()),
    ];
    let (live, dead) = split_by_liveness(targets, &vec![true, false, true]);
    let report = CmdCallHandler::conn_status_report(&peer("127.0.0.1:7000"), &live, &dead);
    assert_eq!(report, vec![
        "-----------------系统状态-------------------",
        "应用程序监听于：127.0.0.1:7000",
        "-----------------存活连接-------------------",
        "1.1.1.1:1 (Conn to Client)",
        "3.3.3.3:3 (Conn to Server)",
        "-----------------暂离连接-------------------",
        "2.2.2.2:2 (Conn to Server)",
    ]);
    let empty = CmdCallHandler::conn_status_report(&peer("0.0.0.0:1"), &vec![], &vec![]);
    assert_eq!(empty, vec![
        "-----------------系统状态-------------------",
        "应用程序监听于：0.0.0.0:1",
        "-----------------存活连接-------------------",
        "无连接...",
        "-----------------暂离连接-------------------",
        "无连接...",
    ]);
}

#[test]
fn chats() {
    let mut c = ChatCtx::new();
    assert_eq!(c.print_to(), Err("No Chatting".to_string()));
    assert!(c.chat_target().is_err());
    c.change_chat(&peer("1.1.1.1:1"));
    assert_eq!(c.print_to(), Ok(vec!["--------Chat between 1.1.1.1:1 ----".to_string()]));
    let to = c.chat_target().unwrap();
    assert_eq!(to.as_str(), "1.1.1.1:1");
    assert_eq!(c.record_sent(&to, "hi"), Ok(()));
    c.new_msg(BaseChatMessageBody { me: peer("1.1.1.1:1"), msg: "hello".to_string() });
    c.change_chat(&peer("1.1.1.1:1"));
    assert_eq!(c.print_to(), Ok(vec![
        "--------Chat between 1.1.1.1:1 ----".to_string(),
        "[From You] hi".to_string(),
        "[To You] hello".to_string(),
    ]));
    c.new_msg(BaseChatMessageBody { me: peer("2.2.2.2:2"), msg: "yo".to_string() });
    c.change_chat(&peer("2.2.2.2:2"));
    assert_eq!(c.print_to(), Ok(vec![
        "--------Chat between 2.2.2.2:2 ----".to_string(),
        "[To You] yo".to_string(),
    ]));
    assert_eq!(c.record_sent(&peer("3.3.3.3:3"), "x"), Err("chat not init".to_string()));
}

#[test]
fn opening_a_chat_twice_is_opening_it_once() {
    let mut c = ChatCtx::new();
    c.change_chat(&peer("5.5.5.5:5"));
    let once = c.print_to();
    c.change_chat(&peer("5.5.5.5:5"));
    assert_eq!(c.print_to(), once);
    assert_eq!(c.print_to(), Ok(vec!["--------Chat between 5.5.5.5:5 ----".to_string()]));
}

#[test]
fn a_framed_message_reads_back_whole() {
    let json = "{\"end_point\":\"msgbox\",\"content_type\":\"raw\",\"body\":\"hi\"}";
    let mut bytes = frame_bytes(json);
    bytes.extend_from_slice(b"next");
    let mut fb = FrameBuffer::new();
    match fb.scan(&bytes, 0) {
        FrameScan::Frame { frame, next } => {
            assert_eq!(frame, json.as_bytes().to_vec());
            assert_eq!(next, json.len() + 1);
        }
        FrameScan::NeedMore => panic!("expected a frame"),
    }
}

fn read_all(chunks: &[&[u8]]) -> (Vec<Vec<u8>>, FrameBuffer) {
    let mut fb = FrameBuffer::new();
    let mut out = Vec::new();
    for chunk in chunks {
        let mut start = 0;
        loop {
            match fb.scan(chunk, start) {
                FrameScan::Frame { frame, next } => {
                    fb.accept();
                    out.push(frame);
                    start = next;
                }
                FrameScan::NeedMore => break,
            }
        }
    }
    (out, fb)
}

#[test]
fn messages_cut_across_reads_arrive_whole_and_in_order() {
    let (frames, mut fb) = read_all(&[b"a\nbc", b"d", b"\n\nef\ng", b"h"]);
    assert_eq!(frames, vec![b"a".to_vec(), b"bcd".to_vec(), b"".to_vec(), b"ef".to_vec()]);
    match fb.scan(b"\n", 0) {
        FrameScan::Frame { frame, next } => {
            assert_eq!(frame, b"gh".to_vec());
            assert_eq!(next, 1);
        }
        FrameScan::NeedMore => panic!("expected the held bytes"),
    }
    let (same, _) = read_all(&[b"a\nbcd\n\nef\ngh"]);
    assert_eq!(same, frames);
}

#[test]
fn a_fresh_table_reports_no_connections() {
    let c: ConnCtx<u32> = ConnCtx::new(peer("127.0.0.1:9000"));
    let targets = c.status_targets();
    assert!(targets.is_empty());
    let (live, dead) = split_by_liveness(targets, &vec![]);
    let report = CmdCallHandler::conn_status_report(c.addr(), &live, &dead);
    assert_eq!(report, vec![
        "-----------------系统状态-------------------",
        "应用程序监听于：127.0.0.1:9000",
        "-----------------存活连接-------------------",
        "无连接...",
        "-----------------暂离连接-------------------",
        "无连接...",
    ]);
}

#[test]
fn chatwith_needs_a_connection() {
    let mut conns: ConnCtx<u32> = ConnCtx::new(peer("127.0.0.1:9000"));
    let mut c = ChatCtx::new();
    assert_eq!(c.chat_with(&conns, &peer("8.8.8.8:8")), Err("No Conn on 8.8.8.8:8".to_string()));
    assert!(c.print_to().is_err());
    conns.add_server(peer("8.8.8.8:8"), 1);
    assert_eq!(c.chat_with(&conns, &peer("8.8.8.8:8")), Ok(()));
    assert_eq!(c.print_to(), Ok(vec!["--------Chat between 8.8.8.8:8 ----".to_string()]));
    conns.add_client(peer("9.9.9.9:9"), 2);
    assert_eq!(c.chat_with(&conns, &peer("9.9.9.9:9")), Ok(()));
    assert_eq!(c.print_to(), Ok(vec!["--------Chat between 9.9.9.9:9 ----".to_string()]));
}
