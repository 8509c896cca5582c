use ferris_db::command::{parse_u64, split_fields4, trimmed, Command};
use ferris_db::error::FerrisError;

fn parse_err(line: &str) -> String {
    match Command::parse(line) {
        Ok(c) => panic!("expected an error, got {:?}", c),
        Err(e) => e.message(),
    }
}

#[test]
fn parses_each_command() {
    assert!(matches!(Command::parse("PING"), Ok(Command::Ping)));
    assert!(matches!(Command::parse("KEYS"), Ok(Command::Keys)));
    assert!(matches!(Command::parse("COUNT"), Ok(Command::Count)));
    assert!(matches!(Command::parse("CLEAR\n"), Ok(Command::Clear)));
    match Command::parse("GET k") {
        Ok(Command::Get { key }) => assert_eq!(key, "k"),
        _ => panic!(),
    }
    match Command::parse("DELETE k") {
        Ok(Command::Delete { key }) => assert_eq!(key, "k"),
        _ => panic!(),
    }
    match Command::parse("TTL k") {
        Ok(Command::Ttl { key }) => assert_eq!(key, "k"),
        _ => panic!(),
    }
    match Command::parse("RENAME a b") {
        Ok(Command::Rename { old_key, new_key }) => {
            assert_eq!(old_key, "a");
            assert_eq!(new_key, "b");
        }
        _ => panic!(),
    }
    match Command::parse("EXPIRE k 10") {
        Ok(Command::Expire { key, ttl }) => {
            assert_eq!(key, "k");
            assert_eq!(ttl, 10);
        }
        _ => panic!(),
    }
}

#[test]
fn parses_set_with_and_without_ttl() {
    match Command::parse("SET a hello 5\n") {
        Ok(Command::SetValue { key, value, ttl }) => {
            assert_eq!(key, "a");
            assert_eq!(value, "hello");
            assert_eq!(ttl, Some(5));
        }
        _ => panic!(),
    }
    match Command::parse("  SET a hello\r\n") {
        Ok(Command::SetValue { key, value, ttl }) => {
            assert_eq!(key, "a");
            assert_eq!(value, "hello");
            assert_eq!(ttl, None);
        }
        _ => panic!(),
    }
}

#[test]
fn non_numeric_ttl_is_invalid_ttl() {
    assert_eq!(parse_err("SET a b c"), "invalid TTL: c");
    assert_eq!(parse_err("SET k a b"), "invalid TTL: b");
    assert_eq!(parse_err("SET k v 1 2"), "invalid TTL: 1 2");
    assert_eq!(parse_err("EXPIRE k soon"), "invalid TTL: soon");
    assert_eq!(parse_err("EXPIRE k -1"), "invalid TTL: -1");
    assert_eq!(parse_err("SET k v 18446744073709551616"), "invalid TTL: 18446744073709551616");
    assert!(matches!(Command::parse("SET k v x"), Err(FerrisError::InvalidTTL(_))));
}

#[test]
fn unknown_lines_are_invalid_commands() {
    assert_eq!(parse_err("FOO"), "invalid command: FOO");
    assert_eq!(parse_err("get k"), "invalid command: get k");
    assert_eq!(parse_err("  GET\n"), "invalid command: GET");
    assert_eq!(parse_err("GET a b"), "invalid command: GET a b");
    assert_eq!(parse_err("PING now"), "invalid command: PING now");
    assert_eq!(parse_err(""), "invalid command: ");
    assert!(matches!(Command::parse("GET  k"), Err(FerrisError::InvalidCommand(_))));
}

#[test]
fn u64_parsing_follows_decimal_rules() {
    assert_eq!(parse_u64("0"), Some(0));
    assert_eq!(parse_u64("+7"), Some(7));
    assert_eq!(parse_u64("007"), Some(7));
    assert_eq!(parse_u64("18446744073709551615"), Some(u64::MAX));
    assert_eq!(parse_u64("18446744073709551616"), None);
    assert_eq!(parse_u64(""), None);
    assert_eq!(parse_u64("+"), None);
    assert_eq!(parse_u64("1a"), None);
    assert_eq!(parse_u64(" 1"), None);
}

#[test]
fn trimming_and_splitting() {
    assert_eq!(trimmed(" \t a b \u{3000}\n"), "a b");
    assert_eq!(trimmed("   "), "");
    assert_eq!(split_fields4("a b c d e"), vec!["a", "b", "c", "d e"]);
    assert_eq!(split_fields4("a  b"), vec!["a", "", "b"]);
    assert_eq!(split_fields4(""), vec![""]);
    assert_eq!(split_fields4("one"), vec!["one"]);
}

#[test]
fn error_messages() {
    assert_eq!(FerrisError::KeyNotFound("k".to_string()).message(), "key 'k' not found");
    assert_eq!(FerrisError::KeyExists("k".to_string()).message(), "key 'k' already exists");
    assert_eq!(FerrisError::Persistence("io".to_string()).message(), "persistence error: io");
    assert_eq!(FerrisError::InvalidCommand("x y".to_string()).message(), "invalid command: x y");
    assert_eq!(FerrisError::InvalidTTL("q".to_string()).message(), "invalid TTL: q");
}
