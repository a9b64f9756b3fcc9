use replication_kv::primary::Primary;
use replication_kv::protocol::Message;
use replication_kv::replica::Replica;
use replication_kv::store::KVStore;
use replication_kv::topology::ReplicaSet;

#[test]
fn store_put_then_get() {
    let mut st = KVStore::new();
    assert_eq!(st.get("hello"), None);
    st.put("hello".to_string(), "world".to_string());
    assert_eq!(st.get("hello"), Some("world".to_string()));
    st.put("other".to_string(), "value".to_string());
    assert_eq!(st.get("hello"), Some("world".to_string()));
    st.put("hello".to_string(), "again".to_string());
    assert_eq!(st.get("hello"), Some("again".to_string()));
}

#[test]
fn store_snapshot_has_last_value_per_key() {
    let mut st = KVStore::new();
    st.put("a".to_string(), "1".to_string());
    st.put("b".to_string(), "2".to_string());
    st.put("a".to_string(), "3".to_string());
    let mut snap = st.keys();
    snap.sort();
    assert_eq!(
        snap,
        vec![
            ("a".to_string(), "3".to_string()),
            ("b".to_string(), "2".to_string()),
        ]
    );
}

#[test]
fn snapshot_is_a_copy() {
    let mut st = KVStore::new();
    st.put("a".to_string(), "1".to_string());
    let snap = st.keys();
    st.put("a".to_string(), "2".to_string());
    assert_eq!(snap, vec![("a".to_string(), "1".to_string())]);
    assert_eq!(st.get("a"), Some("2".to_string()));
}

#[test]
fn registry_keeps_registration_order_and_duplicates() {
    let mut rs = ReplicaSet::new();
    assert_eq!(rs.iter(), Vec::<String>::new());
    rs.register("127.0.0.1:8081".to_string());
    rs.register("127.0.0.1:8082".to_string());
    rs.register("127.0.0.1:8081".to_string());
    assert_eq!(
        rs.iter(),
        vec![
            "127.0.0.1:8081".to_string(),
            "127.0.0.1:8082".to_string(),
            "127.0.0.1:8081".to_string(),
        ]
    );
}

#[test]
fn broadcast_sends_same_bytes_to_every_replica() {
    let mut p = Primary::new();
    assert_eq!(p.handle_join_line("JOIN 127.0.0.1:8081"), Some("SNAPSHOT_END\n".to_string()));
    assert_eq!(p.handle_join_line("JOIN 127.0.0.1:8082"), Some("SNAPSHOT_END\n".to_string()));
    let plan = p.handle_put("hello".to_string(), "world".to_string());
    assert_eq!(
        plan,
        vec![
            ("127.0.0.1:8081".to_string(), "PUT hello world\n".to_string()),
            ("127.0.0.1:8082".to_string(), "PUT hello world\n".to_string()),
        ]
    );
    assert_eq!(plan[0].1, plan[1].1);
}

#[test]
fn primary_ignores_lines_other_than_join() {
    let mut p = Primary::new();
    assert_eq!(p.handle_join_line("PUT a b"), None);
    assert_eq!(p.handle_join_line("SNAPSHOT_END"), None);
    assert_eq!(p.handle_join_line("nonsense"), None);
    let plan = p.handle_put("k".to_string(), "v".to_string());
    assert_eq!(plan, Vec::<(String, String)>::new());
}

#[test]
fn join_streams_existing_state() {
    let mut p = Primary::new();
    p.handle_put("k1".to_string(), "v1".to_string());
    p.handle_put("k2".to_string(), "v2".to_string());
    let text = p.handle_join_line("JOIN 127.0.0.1:8081").unwrap();
    assert_eq!(text, "PUT k1 v1\nPUT k2 v2\nSNAPSHOT_END\n");
}

#[test]
fn replica_applies_put_and_ignores_the_rest() {
    let mut r = Replica::new();
    r.apply_line("PUT a 1");
    assert_eq!(r.handle_get("a"), Some("1".to_string()));
    r.apply_line("JOIN 127.0.0.1:8080");
    r.apply_line("SNAPSHOT_END");
    r.apply_line("garbage");
    assert_eq!(r.handle_get("a"), Some("1".to_string()));
    assert_eq!(r.handle_get("JOIN"), None);
}

#[test]
fn replica_snapshot_stream_stops_at_end_marker() {
    let mut r = Replica::new();
    assert!(!r.apply_snapshot_line("PUT a 1"));
    assert!(!r.apply_snapshot_line("nonsense line"));
    assert!(!r.apply_snapshot_line("PUT b 2"));
    assert!(r.apply_snapshot_line("SNAPSHOT_END"));
    assert_eq!(r.handle_get("a"), Some("1".to_string()));
    assert_eq!(r.handle_get("b"), Some("2".to_string()));
}

/// The whole exchange, with the lines carried by hand in place of the
/// sockets: a write on the primary, a replica joining and receiving the
/// snapshot, then a live broadcast reaching the replica's listener.
#[test]
fn end_to_end_write_join_and_replicate() {
    let mut primary = Primary::new();
    let mut replica = Replica::new();

    // PUT hello world on the primary succeeds; GET hello returns world.
    let plan = primary.handle_put("hello".to_string(), "world".to_string());
    assert_eq!(plan, Vec::<(String, String)>::new());
    assert_eq!(primary.handle_get("hello"), Some("world".to_string()));

    // The replica joins: it sends its JOIN line and applies the
    // snapshot stream the primary answers with.
    let join_line = Message::Join { replica_addr: "127.0.0.1:8081".to_string() }.format();
    let snapshot = primary.handle_join_line(&join_line).unwrap();
    let mut done = false;
    for line in snapshot.lines() {
        done = replica.apply_snapshot_line(line);
        if done {
            break;
        }
    }
    assert!(done);
    assert_eq!(replica.handle_get("hello"), Some("world".to_string()));

    // A later write is broadcast; the replica's listener receives the
    // pushed line on a fresh connection and applies it.
    let plan = primary.handle_put("foo".to_string(), "bar".to_string());
    assert_eq!(plan.len(), 1);
    assert_eq!(plan[0].0, "127.0.0.1:8081");
    for line in plan[0].1.lines() {
        replica.apply_line(line);
    }
    assert_eq!(replica.handle_get("foo"), Some("bar".to_string()));

    // A key never put is "not found" on either node, not an error.
    assert_eq!(primary.handle_get("missing"), None);
    assert_eq!(replica.handle_get("missing"), None);
}
