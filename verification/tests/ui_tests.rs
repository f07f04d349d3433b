use aparte::bars::{TitleBar, WinBar};
use aparte::command::Command;
use aparte::event::{Action, Decoded, Event, Key, KeyCodec};
use aparte::input::InputLine;
use aparte::message::{Jid, Message};
use aparte::paint::{PaintOp, Style};
use aparte::event::Command as NamedCommand;
use aparte::event::CommandOrMessage;
use aparte::ui::Ui;

#[test]
fn test_winbar_highlight_skips_current_window() {
    let mut bar = WinBar::new();
    bar.add_window("console".to_string());
    bar.add_window("alice".to_string());
    bar.set_current_window("console".to_string());
    bar.highlight_window(&"console".to_string());
    assert!(bar.highlighted.is_empty());
    bar.highlight_window(&"alice".to_string());
    bar.highlight_window(&"alice".to_string());
    assert_eq!(bar.highlighted, vec!["alice".to_string()]);
    bar.set_current_window("alice".to_string());
    assert!(bar.highlighted.is_empty());
}

#[test]
fn test_winbar_paint_numbers_entries() {
    let mut bar = WinBar::new();
    bar.add_window("console".to_string());
    bar.add_window("alice".to_string());
    bar.set_current_window("console".to_string());
    let mut ops: Vec<PaintOp> = Vec::new();
    bar.paint(1, 24, 80, &mut ops);
    let runs: Vec<String> = ops
        .iter()
        .filter_map(|op| match op {
            PaintOp::Run(s, _) => Some(s.clone()),
            _ => None,
        })
        .collect();
    assert!(runs.contains(&"-1: console- ".to_string()));
    assert!(runs.contains(&"[2: alice] ".to_string()));
}

#[test]
fn test_title_bar_paint_shows_name() {
    let mut title = TitleBar::new();
    title.set_name("console".to_string());
    let mut ops: Vec<PaintOp> = Vec::new();
    title.paint(1, 1, 80, &mut ops);
    let mut seen = false;
    for op in &ops {
        if let PaintOp::Run(s, _) = op {
            if s == " console" {
                seen = true;
            }
        }
    }
    assert!(seen);
}

#[test]
fn test_input_line_editing() {
    let mut input = InputLine::new();
    for c in "hello world".chars() {
        input.key(c);
    }
    input.left();
    input.left();
    input.backspace();
    assert_eq!(input.content(), "hello wold");
    assert_eq!(input.cursor, 8);
    input.delete();
    assert_eq!(input.content(), "hello wod");
    input.end();
    input.backward_delete_word();
    assert_eq!(input.content(), "hello ");
    input.backward_delete_word();
    assert_eq!(input.content(), "");
    let (text, password) = input.validate();
    assert_eq!(text, "");
    assert!(!password);
}

#[test]
fn test_input_line_history_recall() {
    let mut input = InputLine::new();
    for c in "first".chars() {
        input.key(c);
    }
    let _ = input.validate();
    for c in "second".chars() {
        input.key(c);
    }
    let _ = input.validate();
    input.previous();
    assert_eq!(input.content(), "second");
    input.previous();
    assert_eq!(input.content(), "first");
    input.next();
    assert_eq!(input.content(), "second");
}

#[test]
fn test_password_entry_is_masked_and_not_kept() {
    let mut input = InputLine::new();
    input.read_password();
    for c in "secret".chars() {
        input.key(c);
    }
    let mut ops: Vec<PaintOp> = Vec::new();
    input.paint(1, 1, 40, &mut ops);
    let mut masked = false;
    for op in &ops {
        if let PaintOp::Run(s, _) = op {
            if s == "******" {
                masked = true;
            }
        }
    }
    assert!(masked);
    let (text, password) = input.validate();
    assert_eq!(text, "secret");
    assert!(password);
    assert!(input.history.is_empty());
}

#[test]
fn test_key_codec_queues_and_closes() {
    let mut codec = KeyCodec::new();
    match codec.decode(vec![Key::Char('a'), Key::Backspace]) {
        Decoded::Item(Key::Char(c)) => assert_eq!(c, 'a'),
        _ => panic!("expected the first key"),
    }
    match codec.decode(vec![]) {
        Decoded::Item(Key::Backspace) => {},
        _ => panic!("expected the queued key"),
    }
    match codec.decode(vec![]) {
        Decoded::Pending => {},
        _ => panic!("expected pending"),
    }
    codec.stop();
    match codec.decode(vec![Key::Char('x')]) {
        Decoded::Closed => {},
        _ => panic!("expected the closed condition"),
    }
}

#[test]
fn test_ui_quit_clears_running_flag() {
    let mut ui = Ui::new();
    let mut actions: Vec<Action> = Vec::new();
    assert!(ui.running);
    ui.on_event(Event::Quit, &mut actions);
    assert!(!ui.running);
    assert!(actions.is_empty());
}

#[test]
fn test_ui_unknown_window_is_reported_not_switched() {
    let mut ui = Ui::new();
    let mut ops: Vec<PaintOp> = Vec::new();
    ui.init(80, 24, &mut ops);
    let mut actions: Vec<Action> = Vec::new();
    ui.on_event(Event::Win("nowhere".to_string()), &mut actions);
    assert_eq!(actions.len(), 1);
    match &actions[0] {
        Action::Log(s) => assert_eq!(s, "Unknown window nowhere"),
        _ => panic!("expected a report"),
    }
    assert_eq!(ui.current_window, Some("console".to_string()));
}

#[test]
fn test_ui_submits_command_line() {
    let mut ui = Ui::new();
    let mut ops: Vec<PaintOp> = Vec::new();
    ui.init(80, 24, &mut ops);
    let mut actions: Vec<Action> = Vec::new();
    for c in "/msg alice hello".chars() {
        ui.on_event(Event::Key(Key::Char(c)), &mut actions);
    }
    ui.on_event(Event::Key(Key::Char('\n')), &mut actions);
    assert_eq!(actions.len(), 1);
    match &actions[0] {
        Action::RunCommand(c) => {
            assert_eq!(c.args, vec!["msg".to_string(), "alice".to_string(), "hello".to_string()]);
        },
        _ => panic!("expected the command to run"),
    }
}

#[test]
fn test_ui_reports_parse_errors_inline() {
    let mut ui = Ui::new();
    let mut ops: Vec<PaintOp> = Vec::new();
    ui.init(80, 24, &mut ops);
    let mut actions: Vec<Action> = Vec::new();
    for c in "/say \"unterminated".chars() {
        ui.on_event(Event::Key(Key::Char(c)), &mut actions);
    }
    ui.on_event(Event::Key(Key::Char('\n')), &mut actions);
    assert_eq!(actions.len(), 1);
    match &actions[0] {
        Action::CommandError(s) => assert_eq!(s, "Missing closing quote"),
        _ => panic!("expected a parse error"),
    }
}

#[test]
fn test_ui_message_opens_window_and_highlights() {
    let mut ui = Ui::new();
    let mut ops: Vec<PaintOp> = Vec::new();
    ui.init(80, 24, &mut ops);
    let from = Jid::Bare("alice@chat.example".to_string());
    let to = Jid::Bare("me@chat.example".to_string());
    let m = Message::incoming("id-1".to_string(), &from, &to, "hi");
    let mut actions: Vec<Action> = Vec::new();
    ui.on_event(Event::Message(m), &mut actions);
    let windows = ui.get_windows();
    assert_eq!(windows, vec!["console".to_string(), "alice@chat.example".to_string()]);
    assert_eq!(ui.current_window, Some("console".to_string()));
}

#[test]
fn test_ui_completion_cycles_candidates() {
    let mut ui = Ui::new();
    let mut ops: Vec<PaintOp> = Vec::new();
    ui.init(80, 24, &mut ops);
    let mut actions: Vec<Action> = Vec::new();
    for c in "/co".chars() {
        ui.on_event(Event::Key(Key::Char(c)), &mut actions);
    }
    ui.on_event(Event::Key(Key::Char('\t')), &mut actions);
    assert_eq!(actions.len(), 1);
    let command = match &actions[0] {
        Action::NeedCompletion(c) => Command { args: c.args.clone(), cursor: c.cursor },
        _ => panic!("expected a completion request"),
    };
    assert_eq!(command.args, vec!["co".to_string()]);
    assert_eq!(command.cursor, 0);
    ui.provide_completion(
        vec!["connect".to_string(), "consult".to_string(), "nope".to_string()],
        &command,
    );
    actions.clear();
    ui.on_event(Event::Key(Key::Char('\t')), &mut actions);
    assert_eq!(actions.len(), 1);
    match &actions[0] {
        Action::Emit(Event::Completed(s)) => assert_eq!(s, "/connect"),
        _ => panic!("expected the completed line"),
    }
}

#[test]
fn test_ui_resize_then_refresh_repaints() {
    let mut ui = Ui::new();
    let mut ops: Vec<PaintOp> = Vec::new();
    ui.init(80, 24, &mut ops);
    let mut actions: Vec<Action> = Vec::new();
    ui.on_event(Event::Resize(100, 30), &mut actions);
    let mut ops: Vec<PaintOp> = Vec::new();
    ui.refresh(&mut ops);
    assert!(!ops.is_empty());
    let mut ops2: Vec<PaintOp> = Vec::new();
    ui.refresh(&mut ops2);
    let texts: Vec<(String, Style)> = ops
        .iter()
        .filter_map(|op| match op {
            PaintOp::Run(s, st) => Some((s.clone(), *st)),
            _ => None,
        })
        .collect();
    let texts2: Vec<(String, Style)> = ops2
        .iter()
        .filter_map(|op| match op {
            PaintOp::Run(s, st) => Some((s.clone(), *st)),
            _ => None,
        })
        .collect();
    assert_eq!(texts, texts2);
}

#[test]
fn test_dispatch_command_forms() {
    let c = NamedCommand::new("connect".to_string(), vec!["me@chat.example".to_string()]);
    assert_eq!(c.name, "connect");
    assert_eq!(c.args, vec!["me@chat.example".to_string()]);
    let either = CommandOrMessage::Command(c);
    match either {
        CommandOrMessage::Command(c) => assert_eq!(c.name, "connect"),
        CommandOrMessage::Message(_) => panic!("expected the command form"),
    }
}

#[test]
fn test_jid_forms() {
    let bare = Jid::Bare("alice@chat.example".to_string());
    assert_eq!(bare.full_text(), "alice@chat.example");
    assert_eq!(bare.to_bare(), "alice@chat.example");
    let full = Jid::Full("alice@chat.example".to_string(), "tablet".to_string());
    assert_eq!(full.full_text(), "alice@chat.example/tablet");
    assert_eq!(full.to_bare(), "alice@chat.example");
}

#[test]
fn test_ui_autocomplete_wraps_around() {
    let mut ui = Ui::new();
    ui.provide_completion(
        vec!["alpha".to_string(), "beta".to_string()],
        &Command { args: vec![], cursor: 0 },
    );
    let mut cmd = Command { args: vec!["a".to_string()], cursor: 0 };
    ui.autocomplete(&mut cmd);
    assert_eq!(cmd.args, vec!["alpha".to_string()]);
    ui.autocomplete(&mut cmd);
    assert_eq!(cmd.args, vec!["beta".to_string()]);
    ui.autocomplete(&mut cmd);
    assert_eq!(cmd.args, vec!["alpha".to_string()]);
    let mut cmd = Command { args: vec!["x".to_string()], cursor: 1 };
    ui.autocomplete(&mut cmd);
    assert_eq!(cmd.args, vec!["x".to_string(), "beta".to_string()]);
}

#[test]
fn test_window_cycling() {
    let mut ui = Ui::new();
    let mut ops: Vec<PaintOp> = Vec::new();
    ui.init(80, 24, &mut ops);
    let from = Jid::Bare("alice@chat.example".to_string());
    let to = Jid::Bare("me@chat.example".to_string());
    let mut actions: Vec<Action> = Vec::new();
    ui.on_event(
        Event::Message(Message::incoming("id-1".to_string(), &from, &to, "hi")),
        &mut actions,
    );
    assert_eq!(ui.current_window, Some("console".to_string()));
    ui.next_window();
    assert_eq!(ui.current_window, Some("alice@chat.example".to_string()));
    ui.next_window();
    assert_eq!(ui.current_window, Some("alice@chat.example".to_string()));
    ui.prev_window();
    assert_eq!(ui.current_window, Some("console".to_string()));
    ui.prev_window();
    assert_eq!(ui.current_window, Some("console".to_string()));
}

#[test]
fn test_password_flow_answers_pending_command() {
    let mut ui = Ui::new();
    let mut ops: Vec<PaintOp> = Vec::new();
    ui.init(80, 24, &mut ops);
    let mut actions: Vec<Action> = Vec::new();
    let pending = Command { args: vec!["connect".to_string(), "me@chat.example".to_string()], cursor: 0 };
    ui.on_event(Event::ReadPassword(pending), &mut actions);
    assert!(actions.is_empty());
    for c in "hunter".chars() {
        ui.on_event(Event::Key(Key::Char(c)), &mut actions);
    }
    ui.on_event(Event::Key(Key::Char('\n')), &mut actions);
    assert_eq!(actions.len(), 1);
    match &actions[0] {
        Action::RunCommand(c) => {
            assert_eq!(
                c.args,
                vec!["connect".to_string(), "me@chat.example".to_string(), "hunter".to_string()],
            );
        },
        _ => panic!("expected the pending command to run"),
    }
    assert!(ui.password_command.is_none());
}

#[test]
fn test_connected_event_shows_account() {
    let mut ui = Ui::new();
    let mut ops: Vec<PaintOp> = Vec::new();
    ui.init(80, 24, &mut ops);
    let mut actions: Vec<Action> = Vec::new();
    let jid = Jid::Full("me@chat.example".to_string(), "laptop".to_string());
    ui.on_event(Event::Connected(jid), &mut actions);
    let mut ops: Vec<PaintOp> = Vec::new();
    ui.refresh(&mut ops);
    let mut seen = false;
    for op in &ops {
        if let PaintOp::Run(s, _) = op {
            if s == " me@chat.example/laptop" {
                seen = true;
            }
        }
    }
    assert!(seen);
}

#[test]
fn test_page_up_requests_history_for_current_window() {
    let mut ui = Ui::new();
    let mut ops: Vec<PaintOp> = Vec::new();
    ui.init(80, 24, &mut ops);
    let mut actions: Vec<Action> = Vec::new();
    ui.on_event(Event::Key(Key::PageUp), &mut actions);
    assert_eq!(actions.len(), 1);
    match &actions[0] {
        Action::LoadHistory(w) => assert_eq!(w, "console"),
        _ => panic!("expected a history request"),
    }
    actions.clear();
    ui.on_event(Event::Key(Key::PageDown), &mut actions);
    assert!(actions.is_empty());
}
