use aparte::buffer::BufferedWin;
use aparte::paint::{plain_style, sender_style, PaintOp, Style};
use aparte::message::{message_rows, split_lines, Jid, Message};

fn chat(id: &str, body: &str) -> Message {
    let from = Jid::Full("alice@chat.example".to_string(), "tablet".to_string());
    let to = Jid::Bare("me@chat.example".to_string());
    Message::incoming(id.to_string(), &from, &to, body)
}

#[test]
fn test_duplicate_identity_is_absorbed() {
    let mut win = BufferedWin::new();
    win.insert(chat("id-1", "hello"));
    assert_eq!(win.buf.len(), 1);
    let before = win.total_lines();
    win.insert(chat("id-1", "hello"));
    assert_eq!(win.buf.len(), 1);
    assert_eq!(win.total_lines(), before);
    win.insert(chat("id-2", "hello again"));
    assert_eq!(win.buf.len(), 2);
}

#[test]
fn test_page_up_on_short_buffer_stays_put() {
    let mut win = BufferedWin::new();
    for i in 0..5 {
        win.insert(chat(&format!("id-{}", i), "one line"));
    }
    assert_eq!(win.total_lines(), 5);
    win.page_up(10);
    assert_eq!(win.view, 0);
}

#[test]
fn test_page_up_and_down_stay_in_bounds() {
    let mut win = BufferedWin::new();
    for i in 0..25 {
        win.insert(chat(&format!("id-{}", i), "one line"));
    }
    let h = 10;
    let total = win.total_lines();
    for _ in 0..6 {
        win.page_up(h);
        assert!(win.view <= total - h);
    }
    assert_eq!(win.view, total - h);
    for _ in 0..6 {
        win.page_down(h);
    }
    assert_eq!(win.view, 0);
}

#[test]
fn test_multi_line_message_counts_every_line() {
    let mut win = BufferedWin::new();
    win.insert(chat("id-1", "one\ntwo\nthree"));
    assert_eq!(win.total_lines(), 3);
    win.insert(chat("id-2", "four"));
    assert_eq!(win.total_lines(), 4);
}

#[test]
fn test_split_lines_shapes() {
    let lines = split_lines("ab\ncd");
    assert_eq!(lines, vec!["ab".to_string(), "cd".to_string()]);
    let lines = split_lines("ab\n");
    assert_eq!(lines, vec!["ab".to_string()]);
    let lines = split_lines("\n");
    assert_eq!(lines, vec!["".to_string()]);
    let lines = split_lines("");
    assert!(lines.is_empty());
    let lines = split_lines("a\n\nb");
    assert_eq!(lines, vec!["a".to_string(), "".to_string(), "b".to_string()]);
}

#[test]
fn test_message_rows_head_names_sender() {
    let m = chat("id-1", "hi\nthere");
    let rows = message_rows(&m);
    assert_eq!(rows.len(), 2);
    assert_eq!(rows[0].head, "alice@chat.example: ");
    assert_eq!(rows[0].text, "hi");
    assert_eq!(rows[1].head, "");
    assert_eq!(rows[1].text, "there");
    let log = Message::log("plain note".to_string());
    let rows = message_rows(&log);
    assert_eq!(rows.len(), 1);
    assert_eq!(rows[0].head, "");
    assert_eq!(rows[0].text, "plain note");
}

#[test]
fn test_log_messages_are_never_deduplicated_against_each_other() {
    let mut win = BufferedWin::new();
    win.insert(Message::log("same text".to_string()));
    win.insert(Message::log("same text".to_string()));
    assert_eq!(win.buf.len(), 2);
}

#[test]
fn test_viewport_shows_scrolled_window() {
    let mut win = BufferedWin::new();
    for i in 0..6 {
        win.insert(chat(&format!("id-{}", i), &format!("line {}", i)));
    }
    let mut ops: Vec<PaintOp> = Vec::new();
    win.paint(1, 1, 3, &mut ops);
    let runs: Vec<String> = ops
        .iter()
        .filter_map(|op| match op {
            PaintOp::Run(s, _) => Some(s.clone()),
            _ => None,
        })
        .collect();
    assert_eq!(runs.len(), 6);
    assert_eq!(runs[0], "alice@chat.example: ");
    assert_eq!(runs[1], "line 3");
    assert_eq!(runs[5], "line 5");
    win.page_up(3);
    let mut ops: Vec<PaintOp> = Vec::new();
    win.paint(1, 1, 3, &mut ops);
    let runs: Vec<String> = ops
        .iter()
        .filter_map(|op| match op {
            PaintOp::Run(s, _) => Some(s.clone()),
            _ => None,
        })
        .collect();
    assert_eq!(runs[1], "line 0");
    assert_eq!(runs[5], "line 2");
}

#[test]
fn test_sender_run_is_styled() {
    let mut win = BufferedWin::new();
    win.insert(chat("id-1", "hello"));
    let mut ops: Vec<PaintOp> = Vec::new();
    win.paint(1, 1, 3, &mut ops);
    let runs: Vec<(String, Style)> = ops
        .iter()
        .filter_map(|op| match op {
            PaintOp::Run(s, st) => Some((s.clone(), *st)),
            _ => None,
        })
        .collect();
    assert_eq!(runs.len(), 2);
    assert_eq!(runs[0].0, "alice@chat.example: ");
    assert_eq!(runs[0].1, sender_style());
    assert_eq!(runs[1].0, "hello");
    assert_eq!(runs[1].1, plain_style());
}
