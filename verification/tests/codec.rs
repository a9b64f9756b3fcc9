use replication_kv::protocol::Message;

#[test]
fn parse_put_line() {
    assert_eq!(
        Message::parse("PUT hello world"),
        Some(Message::Put { key: "hello".to_string(), value: "world".to_string() })
    );
}

#[test]
fn parse_join_line() {
    assert_eq!(
        Message::parse("JOIN 127.0.0.1:8081"),
        Some(Message::Join { replica_addr: "127.0.0.1:8081".to_string() })
    );
}

#[test]
fn parse_snapshot_end_line() {
    assert_eq!(Message::parse("SNAPSHOT_END"), Some(Message::SnapshotEnd));
    assert_eq!(Message::parse("  SNAPSHOT_END  "), Some(Message::SnapshotEnd));
}

#[test]
fn parse_tolerates_surrounding_whitespace() {
    assert_eq!(
        Message::parse("  PUT\thello \t world\n"),
        Some(Message::Put { key: "hello".to_string(), value: "world".to_string() })
    );
}

#[test]
fn parse_rejects_malformed_lines() {
    assert_eq!(Message::parse(""), None);
    assert_eq!(Message::parse("   "), None);
    assert_eq!(Message::parse("PUT k"), None);
    assert_eq!(Message::parse("PUT k v extra"), None);
    assert_eq!(Message::parse("JOIN"), None);
    assert_eq!(Message::parse("arbitrary garbage input"), None);
    assert_eq!(Message::parse("put k v"), None);
    assert_eq!(Message::parse("SNAPSHOT_END extra"), None);
}

#[test]
fn format_put_line() {
    let m = Message::Put { key: "hello".to_string(), value: "world".to_string() };
    assert_eq!(m.format(), "PUT hello world\n");
}

#[test]
fn format_join_line() {
    let m = Message::Join { replica_addr: "127.0.0.1:8081".to_string() };
    assert_eq!(m.format(), "JOIN 127.0.0.1:8081\n");
}

#[test]
fn format_snapshot_end_line() {
    assert_eq!(Message::SnapshotEnd.format(), "SNAPSHOT_END\n");
}

#[test]
fn format_snapshot_text() {
    let m = Message::Snapshot {
        entries: vec![
            ("k1".to_string(), "v1".to_string()),
            ("k2".to_string(), "v2".to_string()),
        ],
    };
    assert_eq!(m.format(), "PUT k1 v1\nPUT k2 v2\nSNAPSHOT_END\n");
    let empty = Message::Snapshot { entries: vec![] };
    assert_eq!(empty.format(), "SNAPSHOT_END\n");
}

#[test]
fn round_trip_single_line_messages() {
    let messages = vec![
        Message::Put { key: "k".to_string(), value: "v".to_string() },
        Message::Join { replica_addr: "127.0.0.1:9000".to_string() },
        Message::SnapshotEnd,
    ];
    for m in messages {
        assert_eq!(Message::parse(&m.format()), Some(m));
    }
}

#[test]
fn snapshot_parses_back_as_constituent_lines() {
    let m = Message::Snapshot {
        entries: vec![
            ("a".to_string(), "1".to_string()),
            ("b".to_string(), "2".to_string()),
        ],
    };
    let text = m.format();
    let parsed: Vec<Option<Message>> = text.lines().map(Message::parse).collect();
    assert_eq!(
        parsed,
        vec![
            Some(Message::Put { key: "a".to_string(), value: "1".to_string() }),
            Some(Message::Put { key: "b".to_string(), value: "2".to_string() }),
            Some(Message::SnapshotEnd),
        ]
    );
    // Never a single Snapshot value back.
    assert_eq!(Message::parse(&text), None);
}
