use tesseras::cli::{node_id_to_hex, parse_command, Command};

#[test]
fn help_in_every_spelling() {
    assert!(matches!(parse_command("/help"), Command::Info));
    assert!(matches!(parse_command("help"), Command::Info));
    assert!(matches!(parse_command("  /HELP  "), Command::Info));
    assert!(matches!(parse_command("> /help"), Command::Info));
}

#[test]
fn stats_and_ping() {
    assert!(matches!(parse_command("/stats"), Command::Stats));
    assert!(matches!(parse_command("stats"), Command::Stats));
    assert!(matches!(parse_command("/ping"), Command::Ping));
    assert!(matches!(parse_command("PING"), Command::Ping));
}

#[test]
fn quit_and_its_aliases() {
    assert!(matches!(parse_command("/quit"), Command::Quit));
    assert!(matches!(parse_command("bye"), Command::Quit));
    assert!(matches!(parse_command("/BYE"), Command::Quit));
    assert!(matches!(parse_command("exit"), Command::Quit));
}

#[test]
fn put_with_key_and_value() {
    match parse_command("/put color blue") {
        Command::Put { key, value } => {
            assert_eq!(key, "color");
            assert_eq!(value, "blue");
        }
        other => panic!("expected Put, got {:?}", std::mem::discriminant(&other)),
    }
}

#[test]
fn put_joins_value_tokens_with_single_spaces() {
    match parse_command("put  name   Ada    Lovelace") {
        Command::Put { key, value } => {
            assert_eq!(key, "name");
            assert_eq!(value, "Ada Lovelace");
        }
        _ => panic!("expected Put"),
    }
}

#[test]
fn put_without_key_or_value_is_reported() {
    match parse_command("/put") {
        Command::Unknown(raw) => assert_eq!(raw, "missing key for put"),
        _ => panic!("expected Unknown"),
    }
    match parse_command("/put onlykey") {
        Command::Unknown(raw) => assert_eq!(raw, "missing value for put"),
        _ => panic!("expected Unknown"),
    }
}

#[test]
fn get_with_and_without_key() {
    match parse_command("get color") {
        Command::Get { key } => assert_eq!(key, "color"),
        _ => panic!("expected Get"),
    }
    match parse_command("/get") {
        Command::Unknown(raw) => assert_eq!(raw, "missing key for get"),
        _ => panic!("expected Unknown"),
    }
}

#[test]
fn blank_and_decoration_only_lines_are_empty() {
    assert!(matches!(parse_command(""), Command::Empty));
    assert!(matches!(parse_command("   \t  "), Command::Empty));
    assert!(matches!(parse_command("/"), Command::Empty));
    assert!(matches!(parse_command(">  "), Command::Empty));
    assert!(matches!(parse_command("> /"), Command::Empty));
}

#[test]
fn unrecognized_commands_keep_the_stripped_line() {
    match parse_command("  /frobnicate the thing  ") {
        Command::Unknown(raw) => assert_eq!(raw, "frobnicate the thing"),
        _ => panic!("expected Unknown"),
    }
}

#[test]
fn prompt_echo_prefix_is_stripped() {
    match parse_command("> put a b") {
        Command::Put { key, value } => {
            assert_eq!(key, "a");
            assert_eq!(value, "b");
        }
        _ => panic!("expected Put"),
    }
}

#[test]
fn node_id_formats_as_uppercase_hex() {
    let id: [u8; 20] = [
        0x00, 0x01, 0x0A, 0x0F, 0x10, 0x1F, 0x7F, 0x80, 0x9C, 0xA5, 0xB6, 0xC7, 0xD8, 0xE9,
        0xFA, 0x0B, 0x2C, 0x3D, 0x4E, 0x5F,
    ];
    assert_eq!(
        node_id_to_hex(&id),
        "00010A0F101F7F809CA5B6C7D8E9FA0B2C3D4E5F"
    );
}

#[test]
fn node_id_of_zeroes_and_of_ones() {
    assert_eq!(node_id_to_hex(&[0u8; 20]), "0".repeat(40));
    assert_eq!(node_id_to_hex(&[0xFFu8; 20]), "F".repeat(40));
}
