use chat_with_rust::log_fmt::LogFormatter;

#[test]
fn message_that_fits_is_one_line() {
    assert_eq!(
        LogFormatter::chuck_message("hello world", "[Info] ", 20),
        Some(vec!["[Info] hello world".to_string()])
    );
    assert_eq!(
        LogFormatter::chuck_message("hello world!!", "[Info] ", 20),
        Some(vec!["[Info] hello world!!".to_string()])
    );
}

#[test]
fn long_message_is_cut_into_numbered_chunks() {
    assert_eq!(
        LogFormatter::chuck_message("abcdefghijklmnopqrstuvwxyz", "[Info] ", 20),
        Some(vec![
            "[Info] #0] abcdefghi".to_string(),
            "[Info] #1] jklmnopqr".to_string(),
            "[Info] #2] stuvwxyz".to_string(),
        ])
    );
}

#[test]
fn chunk_numbers_grow_past_nine() {
    let msg = "a".repeat(100);
    let lines = LogFormatter::chuck_message(&msg, "[Info] ", 20).unwrap();
    assert_eq!(lines.len(), 12);
    assert_eq!(lines[9], format!("[Info] #9] {}", "a".repeat(9)));
    assert_eq!(lines[10], format!("[Info] #10] {}", "a".repeat(8)));
    assert_eq!(lines[11], "[Info] #11] aa");
    for l in &lines {
        assert!(l.len() <= 20);
    }
    let joined: String = lines.iter().map(|l| l.split("] ").nth(2).unwrap()).collect();
    assert_eq!(joined, msg);
}

#[test]
fn no_room_for_the_message_fails() {
    assert_eq!(LogFormatter::chuck_message("abcdefghijklmnopqrstuvwxyz", "[Info] ", 11), None);
    assert_eq!(LogFormatter::chuck_message("abcdefghijklmnopqrstuvwxyz", "[Info] ", 5), None);
}

#[test]
fn cut_inside_a_character_fails() {
    let msg = "你好世界你好世界";
    assert_eq!(
        LogFormatter::chuck_message(msg, "[Info] ", 20),
        Some(vec![
            "[Info] #0] 你好世".to_string(),
            "[Info] #1] 界你好".to_string(),
            "[Info] #2] 世界".to_string(),
        ])
    );
    assert_eq!(LogFormatter::chuck_message(msg, "[Info] ", 21), None);
}

#[test]
fn lines_for_falls_back_to_one_line() {
    assert_eq!(LogFormatter::lines_for("x", "[Error] ", None), vec!["[Error] x".to_string()]);
    assert_eq!(
        LogFormatter::lines_for("abcdefghijklmnopqrstuvwxyz", "[Error] ", Some(5)),
        vec!["[Error] abcdefghijklmnopqrstuvwxyz".to_string()]
    );
    assert_eq!(
        LogFormatter::lines_for("abcdefghijklmnopqrstuvwxyz", "[Error] ", Some(21)),
        vec![
            "[Error] #0] abcdefghi".to_string(),
            "[Error] #1] jklmnopqr".to_string(),
            "[Error] #2] stuvwxyz".to_string(),
        ]
    );
}

#[test]
fn info_and_error_carry_their_prefix() {
    let info = LogFormatter::info("ready");
    assert!(info[0].starts_with("[Info] "));
    assert!(info.concat().contains("ready"));
    let err = LogFormatter::error("bad");
    assert!(err[0].starts_with("[Error] "));
    assert!(err.concat().contains("bad"));
}
