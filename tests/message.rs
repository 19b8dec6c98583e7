use imap_sso_bridge::message::{parse_decimal, Data, Message};

fn line(s: &str) -> String {
    format!("{s}\r\n")
}

#[test]
fn empty_line_is_end() {
    assert!(matches!(Message::parse("\r\n".to_string()), Message::End));
    assert!(matches!(Message::parse("".to_string()), Message::End));
    assert!(matches!(Message::parse("ab".to_string()), Message::End));
}

#[test]
fn capability_is_recognised() {
    match Message::parse(line("a1 CAPABILITY")) {
        Message::Capability { id } => assert_eq!(id, "a1"),
        _ => panic!("expected capability"),
    }
}

#[test]
fn quoted_login_strips_quotes() {
    match Message::parse(line("t7 LOGIN \"bob smith\" \"p w\"")) {
        Message::Login { id, email, password } => {
            assert_eq!(id, "t7");
            assert_eq!(email, "bob smith");
            assert_eq!(password, "p w");
        }
        _ => panic!("expected login"),
    }
}

#[test]
fn unquoted_login_keeps_last_argument() {
    match Message::parse(line("a2 LOGIN alice.dupont@example.org secret")) {
        Message::Login { id, email, password } => {
            assert_eq!(id, "a2");
            assert_eq!(email, "alice.dupont@example.org");
            assert_eq!(password, "secret");
        }
        _ => panic!("expected login"),
    }
}

#[test]
fn login_with_one_argument_is_bad() {
    match Message::parse(line("a2 LOGIN alice")) {
        Message::Bad(raw) => assert_eq!(raw, "a2 LOGIN alice"),
        _ => panic!("expected bad"),
    }
}

#[test]
fn numeric_login_arguments_become_text() {
    match Message::parse(line("x LOGIN 42 nil")) {
        Message::Login { email, password, .. } => {
            assert_eq!(email, "42");
            assert_eq!(password, "nil");
        }
        _ => panic!("expected login"),
    }
}

#[test]
fn line_without_space_is_bad() {
    match Message::parse(line("garbage")) {
        Message::Bad(raw) => assert_eq!(raw, "garbage"),
        _ => panic!("expected bad"),
    }
}

#[test]
fn noop_is_recognised() {
    assert!(matches!(Message::parse(line("n1 NOOP")), Message::NoOp { id } if id == "n1"));
}

#[test]
fn commands_are_case_sensitive() {
    match Message::parse(line("n1 noop")) {
        Message::Unknown { id, command, args } => {
            assert_eq!(id, "n1");
            assert_eq!(command, "noop");
            assert!(args.is_empty());
        }
        _ => panic!("expected unknown"),
    }
}

#[test]
fn unknown_command_keeps_arguments_in_order() {
    match Message::parse(line("a3 FETCH 1:1 FLAGS")) {
        Message::Unknown { id, command, args } => {
            assert_eq!(id, "a3");
            assert_eq!(command, "FETCH");
            assert_eq!(args.len(), 2);
            assert!(matches!(&args[0], Data::Atom(s) if s == "1:1"));
            assert!(matches!(&args[1], Data::Atom(s) if s == "FLAGS"));
        }
        _ => panic!("expected unknown"),
    }
}

#[test]
fn tokenizer_round_trip() {
    let args = Data::str_to_list("\"a\" \"b c\" 42 nil");
    assert_eq!(args.len(), 4);
    assert!(matches!(&args[0], Data::String(s) if s == "a"));
    assert!(matches!(&args[1], Data::String(s) if s == "b c"));
    assert!(matches!(&args[2], Data::Number(42)));
    assert!(matches!(&args[3], Data::Nil));
}

#[test]
fn tokenizer_skips_repeated_spaces() {
    let args = Data::str_to_list("  x   -7 ");
    assert_eq!(args.len(), 2);
    assert!(matches!(&args[0], Data::Atom(s) if s == "x"));
    assert!(matches!(&args[1], Data::Number(-7)));
}

#[test]
fn tokenizer_empty_quotes_give_empty_text() {
    let args = Data::str_to_list("\"\"");
    assert_eq!(args.len(), 1);
    assert!(matches!(&args[0], Data::String(s) if s.is_empty()));
}

#[test]
fn quoted_number_stays_text() {
    let args = Data::str_to_list("\"12\" NIL");
    assert!(matches!(&args[0], Data::String(s) if s == "12"));
    assert!(matches!(&args[1], Data::Atom(s) if s == "NIL"));
}

#[test]
fn decimal_parse_matches_std() {
    for s in [
        "0", "42", "-7", "+5", "-", "+", "", "2147483647", "2147483648", "-2147483648",
        "-2147483649", "007", "1a", "99999999999999999999", "1:1", " 1",
    ] {
        assert_eq!(parse_decimal(s), s.parse::<i32>().ok(), "{s}");
    }
}

#[test]
fn data_text_forms() {
    assert_eq!(Data::Number(-2147483648).into_string(), "-2147483648");
    assert_eq!(Data::Number(0).to_string(), "0");
    assert_eq!(Data::Number(1203).into_string(), "1203");
    assert_eq!(Data::Nil.into_string(), "nil");
    assert_eq!(Data::Atom("x".to_string()).to_string(), "x");
    assert_eq!(Data::String("y z".to_string()).into_string(), "y z");
}

#[test]
fn unclosed_quote_tail_is_dropped() {
    let args = Data::str_to_list("x \"b c");
    assert_eq!(args.len(), 1);
    assert!(matches!(&args[0], Data::Atom(s) if s == "x"));
    assert!(Data::str_to_list("\"42").is_empty());
    assert!(Data::str_to_list("\"nil").is_empty());
}
