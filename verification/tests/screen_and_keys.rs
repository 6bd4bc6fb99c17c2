use chat_with_rust::command::plainer::{CallOutcome, CommendPlainer};
use chat_with_rust::command::parser::SystemCall;
use chat_with_rust::printer::{PrinterCtx, WriteToBufTask};
use chat_with_rust::screen::{cut_pieces, layout_screen};
use chat_with_rust::terminal::{KeyCode, KeyEffect, KeyInput, PrintEventHandler, TerminalAction, TerminalEvent};
use std::collections::VecDeque;

fn key(code: KeyCode) -> TerminalEvent {
    TerminalEvent::Key(KeyInput { code, control: false, release: false })
}

#[test]
fn pieces_of_a_line() {
    assert_eq!(cut_pieces("abcdefghij", 4), vec!["abcd", "efgh", "ij"]);
    assert_eq!(cut_pieces("abcd", 4), vec!["abcd"]);
    assert_eq!(cut_pieces("", 4), Vec::<String>::new());
    assert_eq!(cut_pieces("你好世界", 3), vec!["你好世", "界"]);
}

fn buffer(lines: &[&str]) -> VecDeque<String> {
    lines.iter().map(|s| s.to_string()).collect()
}

#[test]
fn layout_shows_everything_that_fits() {
    let l = layout_screen(&buffer(&["abcdef", "gh"]), 4, 5, 0).unwrap();
    assert_eq!(l.rows, vec!["abcd", "ef", "gh"]);
    assert_eq!(l.new_view, Some(0));
}

#[test]
fn layout_keeps_the_newest_lines() {
    let l = layout_screen(&buffer(&["abcdef", "gh"]), 4, 4, 0).unwrap();
    assert_eq!(l.rows, vec!["ef", "gh"]);
    assert_eq!(l.new_view, None);
}

#[test]
fn layout_scrolled_up() {
    let l = layout_screen(&buffer(&["abcdef", "gh"]), 4, 4, 1).unwrap();
    assert_eq!(l.rows, vec!["abcd", "ef"]);
    assert_eq!(l.new_view, Some(1));
    let l = layout_screen(&buffer(&["abcdef", "gh"]), 4, 4, 5).unwrap();
    assert_eq!(l.rows, vec!["abcd", "ef"]);
    assert_eq!(l.new_view, Some(1));
}

#[test]
fn layout_without_room() {
    assert!(layout_screen(&buffer(&["abc"]), 4, 2, 0).is_none());
    assert!(layout_screen(&buffer(&["abc"]), 4, 0, 0).is_none());
    let l = layout_screen(&buffer(&[]), 4, 10, 0).unwrap();
    assert!(l.rows.is_empty());
    assert_eq!(l.new_view, Some(0));
}

#[test]
fn typing_backspace_and_enter() {
    let mut p = PrinterCtx::new();
    for c in "conn".chars() {
        p.user_ascii_input(c);
    }
    assert_eq!(p.input_text(), "conn");
    assert_eq!(p.status().typed_alpha, 4);
    p.user_ascii_input('x');
    p.user_backspace();
    assert_eq!(p.input_text(), "conn");
    let cmd = p.user_conform();
    assert_eq!(cmd, "conn");
    assert_eq!(p.input_text(), "");
    assert_eq!(p.status().typed_command, 1);
    assert_eq!(p.status().last_command, "conn");
    p.user_backspace();
    assert_eq!(p.input_text(), "");
}

#[test]
fn history_keys() {
    let mut p = PrinterCtx::new();
    assert_eq!(p.user_cmd_history(1), Ok(()));
    assert_eq!(p.input_text(), "");
    for c in "sta!".chars() {
        p.user_ascii_input(c);
    }
    p.user_conform();
    for c in "conn".chars() {
        p.user_ascii_input(c);
    }
    p.user_conform();
    assert_eq!(p.user_cmd_history(1), Ok(()));
    assert_eq!(p.input_text(), "conn");
    assert_eq!(p.user_cmd_history(1), Ok(()));
    assert_eq!(p.input_text(), "sta!");
    assert_eq!(p.user_cmd_history(-1), Ok(()));
    assert_eq!(p.input_text(), "sta!");
    assert_eq!(p.user_cmd_history(-1), Ok(()));
    assert_eq!(p.input_text(), "conn");
    assert_eq!(p.user_cmd_history(2), Err("Op must be 1 or -1".to_string()));
}

#[test]
fn scrolling() {
    let mut p = PrinterCtx::new();
    assert_eq!(p.user_view_offset_changed(-1), Ok(()));
    assert_eq!(p.screen_view(), 0);
    assert_eq!(p.user_view_offset_changed(1), Ok(()));
    assert_eq!(p.user_view_offset_changed(1), Ok(()));
    assert_eq!(p.screen_view(), 2);
    assert_eq!(p.user_view_offset_changed(-1), Ok(()));
    assert_eq!(p.screen_view(), 1);
    assert_eq!(p.user_view_offset_changed(3), Err("Why offset more than 1".to_string()));
    assert_eq!(p.screen_view(), 1);
    p.apply_view(7);
    assert_eq!(p.screen_view(), 7);
}

#[test]
fn writing_and_results() {
    let mut p = PrinterCtx::new();
    p.write_many(vec!["a".to_string(), "b".to_string()]);
    p.write_output("c".to_string());
    assert_eq!(p.screen_lines(), vec!["a", "b", "c"]);
    let r = CommendPlainer::finish(&SystemCall::Unknown, CallOutcome::Done, None);
    p.apply_exec_result(r);
    assert_eq!(p.screen_lines(), vec!["a", "b", "c", "[Error] Unknown command"]);
    let r = CommendPlainer::finish(&SystemCall::ConnStatus, CallOutcome::Lines(vec!["s".to_string()]), None);
    p.apply_exec_result(r);
    assert_eq!(p.screen_lines(), vec!["s"]);
    WriteToBufTask::new().with_output("x".to_string()).with_many(vec!["y".to_string()]).run(&mut p);
    assert_eq!(p.screen_lines(), vec!["s", "x", "y"]);
    WriteToBufTask::new().with_many(vec!["z".to_string()]).with_cls().run(&mut p);
    assert_eq!(p.screen_lines(), vec!["z"]);
    let l = p.layout(10, 10).unwrap();
    assert_eq!(l.rows, vec!["z"]);
    p.clear_screen();
    assert!(p.screen_lines().is_empty());
}

#[test]
fn input_and_status_views() {
    let mut p = PrinterCtx::new();
    for c in "hello".chars() {
        p.user_ascii_input(c);
    }
    assert_eq!(p.input_view(3), Some("llo".to_string()));
    assert_eq!(p.input_view(10), Some("hello".to_string()));
    assert_eq!(p.status_view(9), Some("累计输".to_string()));
    assert_eq!(p.status_view(10), None);
    assert_eq!(p.status_view(500), Some("累计输入字符：5  累计输入命令：0 最后一次执行的命令：".to_string()));
}

#[test]
fn key_decisions() {
    assert_eq!(PrintEventHandler::decide(&key(KeyCode::Enter)), TerminalAction::Confirm);
    assert_eq!(PrintEventHandler::decide(&key(KeyCode::Char('a'))), TerminalAction::Input('a'));
    assert_eq!(PrintEventHandler::decide(&key(KeyCode::Char(' '))), TerminalAction::Input(' '));
    assert_eq!(PrintEventHandler::decide(&key(KeyCode::Char('.'))), TerminalAction::Input('.'));
    assert_eq!(PrintEventHandler::decide(&key(KeyCode::Char(':'))), TerminalAction::Input(':'));
    assert_eq!(PrintEventHandler::decide(&key(KeyCode::Char('-'))), TerminalAction::Ignore);
    assert_eq!(PrintEventHandler::decide(&key(KeyCode::Char('é'))), TerminalAction::Ignore);
    assert_eq!(PrintEventHandler::decide(&key(KeyCode::Left)), TerminalAction::ViewOffset(1));
    assert_eq!(PrintEventHandler::decide(&key(KeyCode::Right)), TerminalAction::ViewOffset(-1));
    assert_eq!(PrintEventHandler::decide(&key(KeyCode::Up)), TerminalAction::History(1));
    assert_eq!(PrintEventHandler::decide(&key(KeyCode::Down)), TerminalAction::History(-1));
    assert_eq!(PrintEventHandler::decide(&key(KeyCode::Backspace)), TerminalAction::Backspace);
    assert_eq!(PrintEventHandler::decide(&key(KeyCode::Other)), TerminalAction::Ignore);
    assert_eq!(PrintEventHandler::decide(&TerminalEvent::Other), TerminalAction::Ignore);
    let ctrl_c = KeyInput { code: KeyCode::Char('c'), control: true, release: true };
    assert_eq!(PrintEventHandler::decide(&TerminalEvent::Key(ctrl_c)), TerminalAction::Exit);
    let released = KeyInput { code: KeyCode::Char('a'), control: false, release: true };
    assert_eq!(PrintEventHandler::decide(&TerminalEvent::Key(released)), TerminalAction::Ignore);
}

#[test]
fn key_events_drive_the_screen() {
    let mut p = PrinterCtx::new();
    for c in "sta!".chars() {
        assert!(matches!(PrintEventHandler::hd_terminal_event(&mut p, &key(KeyCode::Char(c))), KeyEffect::Done));
    }
    assert_eq!(p.input_text(), "sta!");
    match PrintEventHandler::hd_terminal_event(&mut p, &key(KeyCode::Enter)) {
        KeyEffect::Run(cmd) => assert_eq!(cmd, "sta!"),
        _ => panic!("expected a command"),
    }
    PrintEventHandler::hd_terminal_event(&mut p, &key(KeyCode::Up));
    assert_eq!(p.input_text(), "sta!");
    PrintEventHandler::hd_terminal_event(&mut p, &key(KeyCode::Backspace));
    assert_eq!(p.input_text(), "sta");
    PrintEventHandler::hd_terminal_event(&mut p, &key(KeyCode::Left));
    assert_eq!(p.screen_view(), 1);
    let ctrl_c = TerminalEvent::Key(KeyInput { code: KeyCode::Char('c'), control: true, release: false });
    assert!(matches!(PrintEventHandler::hd_terminal_event(&mut p, &ctrl_c), KeyEffect::Exit));
    assert_eq!(p.input_text(), "sta");
}

#[test]
fn typing_a_connect_command() {
    let mut p = PrinterCtx::new();
    for c in "conn 127.0.0.1:8080".chars() {
        assert!(matches!(PrintEventHandler::hd_terminal_event(&mut p, &key(KeyCode::Char(c))), KeyEffect::Done));
    }
    assert_eq!(p.input_text(), "conn 127.0.0.1:8080");
    assert_eq!(p.status().typed_alpha, 19);
    match PrintEventHandler::hd_terminal_event(&mut p, &key(KeyCode::Enter)) {
        KeyEffect::Run(cmd) => assert_eq!(cmd, "conn 127.0.0.1:8080"),
        _ => panic!("expected a command"),
    }
}

#[test]
fn history_down_steps_forth() {
    let mut p = PrinterCtx::new();
    for line in ["first", "second"] {
        for c in line.chars() {
            PrintEventHandler::hd_terminal_event(&mut p, &key(KeyCode::Char(c)));
        }
        PrintEventHandler::hd_terminal_event(&mut p, &key(KeyCode::Enter));
    }
    PrintEventHandler::hd_terminal_event(&mut p, &key(KeyCode::Up));
    assert_eq!(p.input_text(), "second");
    PrintEventHandler::hd_terminal_event(&mut p, &key(KeyCode::Up));
    assert_eq!(p.input_text(), "first");
    PrintEventHandler::hd_terminal_event(&mut p, &key(KeyCode::Down));
    assert_eq!(p.input_text(), "first");
    PrintEventHandler::hd_terminal_event(&mut p, &key(KeyCode::Down));
    assert_eq!(p.input_text(), "second");
    PrintEventHandler::hd_terminal_event(&mut p, &key(KeyCode::Up));
    assert_eq!(p.input_text(), "second");
}

#[test]
fn layout_at_zero_width_without_lines() {
    let l = layout_screen(&buffer(&[]), 0, 10, 3).unwrap();
    assert!(l.rows.is_empty());
    assert_eq!(l.new_view, Some(0));
    assert!(layout_screen(&buffer(&["abc"]), 0, 2, 0).is_none());
    let p = PrinterCtx::new();
    assert_eq!(p.screen_len(), 0);
    assert!(p.layout(0, 10).unwrap().rows.is_empty());
}

#[test]
fn layout_is_the_window_ending_the_clamped_offset_before_the_newest() {
    // Lines oldest first: a b c d e f; three rows.
    let buf = buffer(&["a", "b", "c", "d", "e", "f"]);
    let l = layout_screen(&buf, 1, 5, 0).unwrap();
    assert_eq!(l.rows, vec!["d", "e", "f"]);
    assert_eq!(l.new_view, None);
    let l = layout_screen(&buf, 1, 5, 2).unwrap();
    assert_eq!(l.rows, vec!["b", "c", "d"]);
    assert_eq!(l.new_view, None);
    let l = layout_screen(&buf, 1, 5, 3).unwrap();
    assert_eq!(l.rows, vec!["a", "b", "c"]);
    assert_eq!(l.new_view, Some(3));
    let l = layout_screen(&buf, 1, 5, 9).unwrap();
    assert_eq!(l.rows, vec!["a", "b", "c"]);
    assert_eq!(l.new_view, Some(3));
}

#[test]
fn any_builder_chain_clears_first_and_writes_in_call_order() {
    let mut p = PrinterCtx::new();
    p.write_output("old".to_string());
    WriteToBufTask::new()
        .with_output("a".to_string())
        .with_cls()
        .with_many(vec!["b".to_string(), "c".to_string()])
        .with_output("d".to_string())
        .run(&mut p);
    assert_eq!(p.screen_lines(), vec!["a", "b", "c", "d"]);
    WriteToBufTask::new().with_many(vec!["e".to_string()]).with_output("f".to_string()).run(&mut p);
    assert_eq!(p.screen_lines(), vec!["a", "b", "c", "d", "e", "f"]);
    WriteToBufTask::new().with_cls().with_cls().run(&mut p);
    assert!(p.screen_lines().is_empty());
}
