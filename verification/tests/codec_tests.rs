use comhra::codec::{encode_session, parse_session};
use comhra::model::{ChatError, Role, Turn};

fn turn(role: Role, content: &str) -> Turn {
    Turn::new(role, content.to_string())
}

#[test]
fn encode_empty_session() {
    let turns: Vec<Turn> = Vec::new();
    assert_eq!(encode_session(&turns), "[]");
}

#[test]
fn encode_two_turns_exact() {
    let turns = vec![turn(Role::User, "Hello"), turn(Role::Assistant, "Hi there")];
    assert_eq!(
        encode_session(&turns),
        "[{\"role\":\"user\",\"content\":\"Hello\"},{\"role\":\"assistant\",\"content\":\"Hi there\"}]"
    );
}

#[test]
fn encode_escapes_specials() {
    let turns = vec![turn(Role::System, "a\"b\\c\nd\re\tf")];
    assert_eq!(
        encode_session(&turns),
        "[{\"role\":\"system\",\"content\":\"a\\\"b\\\\c\\nd\\re\\tf\"}]"
    );
}

#[test]
fn round_trip_many_turns() {
    let contents = [
        "plain text",
        "",
        "with \"quotes\" and \\slashes\\",
        "line one\nline two\n",
        "tabs\tand\rreturns",
        "unicode: caf\u{e9} \u{1F600}",
    ];
    let mut turns: Vec<Turn> = Vec::new();
    for (i, c) in contents.iter().enumerate() {
        let role = match i % 3 {
            0 => Role::User,
            1 => Role::Assistant,
            _ => Role::System,
        };
        turns.push(turn(role, c));
    }
    let doc = encode_session(&turns);
    let back = parse_session(&doc).expect("round trip must parse");
    assert_eq!(back.len(), turns.len());
    for (a, b) in turns.iter().zip(back.iter()) {
        assert_eq!(a.role, b.role);
        assert_eq!(a.content, b.content);
    }
}

#[test]
fn round_trip_empty() {
    let turns: Vec<Turn> = Vec::new();
    let doc = encode_session(&turns);
    let back = parse_session(&doc).expect("empty document must parse");
    assert!(back.is_empty());
}

#[test]
fn parse_rejects_invalid_json() {
    for bad in [
        "",
        "not json",
        "[",
        "{}",
        "[{\"role\":\"user\"}]",
        "[{\"role\":\"wizard\",\"content\":\"x\"}]",
        "[{\"role\":\"user\",\"content\":\"x\"}",
        "[{\"role\":\"user\",\"content\":\"x\"}]trailing",
        "[{\"role\":\"user\",\"content\":\"unterminated}]",
    ] {
        match parse_session(bad) {
            Err(ChatError::PersistenceReadFailed) => {},
            other => panic!("expected read failure for {:?}, got {:?}", bad, other.is_ok()),
        }
    }
}

#[test]
fn parsed_turns_carry_render_blocks() {
    let doc = "[{\"role\":\"assistant\",\"content\":\"# Title\"}]";
    let back = parse_session(doc).expect("must parse");
    assert_eq!(back.len(), 1);
    assert!(!back[0].blocks.is_empty());
}

#[test]
fn written_document_is_valid_json_for_serde() {
    let turns = vec![
        turn(Role::User, "He said \"hi\"\nand left\t\\done"),
        turn(Role::Assistant, "ok"),
    ];
    let doc = encode_session(&turns);
    let v: serde_json::Value = serde_json::from_str(&doc).expect("serde_json must accept it");
    let arr = v.as_array().expect("an array");
    assert_eq!(arr.len(), 2);
    assert_eq!(arr[0]["role"].as_str(), Some("user"));
    assert_eq!(
        arr[0]["content"].as_str(),
        Some("He said \"hi\"\nand left\t\\done")
    );
    assert_eq!(arr[1]["role"].as_str(), Some("assistant"));
    assert_eq!(arr[1]["content"].as_str(), Some("ok"));
}
