use aparte::command::Command;

#[test]
fn test_simple_command_parsing() {
    let command = Command::try_from("/test command");
    assert!(command.is_ok());
    let command = command.unwrap();
    assert_eq!(command.args.len(), 2);
    assert_eq!(command.args[0], "test");
    assert_eq!(command.args[1], "command");
    assert_eq!(command.cursor, 1);
}

#[test]
fn test_multiple_args_command_parsing() {
    let command = Command::try_from("/test command with args");
    assert!(command.is_ok());
    let command = command.unwrap();
    assert_eq!(command.args.len(), 4);
    assert_eq!(command.args[0], "test");
    assert_eq!(command.args[1], "command");
    assert_eq!(command.args[2], "with");
    assert_eq!(command.args[3], "args");
    assert_eq!(command.cursor, 3);
}

#[test]
fn test_doubly_quoted_arg_command_parsing() {
    let command = Command::try_from("/test \"command with arg\"");
    assert!(command.is_ok());
    let command = command.unwrap();
    assert_eq!(command.args.len(), 2);
    assert_eq!(command.args[0], "test");
    assert_eq!(command.args[1], "command with arg");
    assert_eq!(command.cursor, 1);
}

#[test]
fn test_simply_quoted_arg_command_parsing() {
    let command = Command::try_from("/test 'command with arg'");
    assert!(command.is_ok());
    let command = command.unwrap();
    assert_eq!(command.args.len(), 2);
    assert_eq!(command.args[0], "test");
    assert_eq!(command.args[1], "command with arg");
    assert_eq!(command.cursor, 1);
}

#[test]
fn test_mixed_quote_arg_command_parsing() {
    let command = Command::try_from("/test 'command with \" arg'");
    assert!(command.is_ok());
    let command = command.unwrap();
    assert_eq!(command.args.len(), 2);
    assert_eq!(command.args[0], "test");
    assert_eq!(command.args[1], "command with \" arg");
    assert_eq!(command.cursor, 1);
}

#[test]
fn test_missing_closing_quote() {
    let command = Command::try_from("/test \"command with arg");
    assert!(command.is_err());
    assert_eq!(command.err(), Some("Missing closing quote"));
}

#[test]
fn test_command_args_parsing_with_cursor() {
    let command = Command::parse_with_cursor("/test command with args", 10);
    assert!(command.is_ok());
    let command = command.unwrap();
    assert_eq!(command.args.len(), 4);
    assert_eq!(command.args[0], "test");
    assert_eq!(command.args[1], "command");
    assert_eq!(command.args[2], "with");
    assert_eq!(command.args[3], "args");
    assert_eq!(command.cursor, 1);
}

#[test]
fn test_command_parsing_with_cursor() {
    let command = Command::parse_with_cursor("/te", 3);
    assert!(command.is_ok());
    let command = command.unwrap();
    assert_eq!(command.args.len(), 1);
    assert_eq!(command.args[0], "te");
    assert_eq!(command.cursor, 0);
}

#[test]
fn test_command_end_with_space_parsing_with_cursor() {
    let command = Command::parse_with_cursor("/test ", 6);
    assert!(command.is_ok());
    let command = command.unwrap();
    assert_eq!(command.args.len(), 1);
    assert_eq!(command.args[0], "test");
    assert_eq!(command.cursor, 1);
}

#[test]
fn test_no_command_parsing_with_cursor() {
    let command = Command::parse_with_cursor("/", 1);
    assert!(command.is_ok());
    let command = command.unwrap();
    assert_eq!(command.args.len(), 1);
    assert_eq!(command.args[0], "");
    assert_eq!(command.cursor, 0);
}

#[test]
fn test_command_assemble() {
    let command = Command {
        args: vec!["foo".to_string(), "bar".to_string()],
        cursor: 0,
    };

    assert_eq!(command.assemble(), "/foo bar");
}

#[test]
fn test_command_with_double_quote_assemble() {
    let command = Command {
        args: vec!["test".to_string(), "fo\"o".to_string(), "bar".to_string()],
        cursor: 0,
    };

    assert_eq!(command.assemble(), "/test 'fo\"o' bar");
}

#[test]
fn test_command_with_simple_quote_assemble() {
    let command = Command {
        args: vec!["test".to_string(), "fo'o".to_string(), "bar".to_string()],
        cursor: 0,
    };

    assert_eq!(command.assemble(), "/test \"fo'o\" bar");
}

#[test]
fn test_command_with_space_assemble() {
    let command = Command {
        args: vec!["test".to_string(), "foo bar".to_string()],
        cursor: 0,
    };

    assert_eq!(command.assemble(), "/test \"foo bar\"");
}

#[test]
fn test_command_with_space_and_quote_assemble() {
    let command = Command {
        args: vec!["test".to_string(), "foo bar\"".to_string()],
        cursor: 0,
    };

    assert_eq!(command.assemble(), "/test 'foo bar\"'");
}

#[test]
fn test_missing_starting_marker() {
    let command = Command::try_from("test command");
    assert!(command.is_err());
    assert_eq!(command.err(), Some("Missing starting /"));
}

#[test]
fn test_dangling_escape() {
    let command = Command::try_from("/test arg\\");
    assert!(command.is_err());
    assert_eq!(command.err(), Some("Missing escaped char"));
}

#[test]
fn test_doubly_quoted_parsing_cursor_at_end() {
    let line = "/test \"command with arg\"";
    let command = Command::parse_with_cursor(line, line.len());
    assert!(command.is_ok());
    let command = command.unwrap();
    assert_eq!(command.args.len(), 2);
    assert_eq!(command.args[0], "test");
    assert_eq!(command.args[1], "command with arg");
    assert_eq!(command.cursor, 1);
}

#[test]
fn test_round_trip_recovers_arguments() {
    let cases: Vec<Vec<&str>> = vec![
        vec!["test", "command", "with", "args"],
        vec!["msg", "someone", "hello there"],
        vec!["say", "it's a \"quoted\" word"],
        vec!["w", "back\\slash", "both'\"quotes"],
    ];
    for args in cases {
        let command = Command {
            args: args.iter().map(|a| a.to_string()).collect(),
            cursor: 0,
        };
        let line = command.assemble();
        let reparsed = Command::try_from(line.as_str()).unwrap();
        assert_eq!(reparsed.args, args);
    }
}

#[test]
fn test_escaping_prefers_quote_switch() {
    let command = Command {
        args: vec!["test".to_string(), "fo o".to_string()],
        cursor: 0,
    };
    assert_eq!(command.assemble(), "/test \"fo o\"");
}
