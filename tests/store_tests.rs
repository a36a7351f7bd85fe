use redis_starter_rust::codec::{decode_request, encode_request, Reply, RequestDecode};
use redis_starter_rust::command::{parse_to_cmd, Command, CommandError};
use redis_starter_rust::data_item::DataItem;
use redis_starter_rust::redis_store::{
    empty_rdb, listening_port, ConnectionMode, Core, Handshake, HandshakeAction, HandshakeStage,
    Propagation, RedisStore, ReplicaAction, ReplicationConfig, Role, EMPTY_RDB,
};
use redis_starter_rust::storage::in_memory_storage::InMemoryStorage;
use redis_starter_rust::storage::KVStorage;
use redis_starter_rust::util::hex_to_bytes;

fn command_of(bytes: &[u8]) -> Result<Command, CommandError> {
    match decode_request(bytes) {
        RequestDecode::Complete(tokens, _) => {
            parse_to_cmd(tokens.iter().map(|s| s.as_str()).collect())
        }
        _ => Err(CommandError::ProtocolError),
    }
}

fn serve(store: &mut RedisStore, bytes: &[u8], now: u64) -> Vec<Vec<u8>> {
    let mut mode = ConnectionMode::Serving;
    store.handle_request(&mut mode, command_of(bytes), now).replies
}

fn master() -> RedisStore {
    RedisStore::new(Role::Master, "127.0.0.1:6379".to_string())
}

#[test]
fn scenario_ping_echo_set_get() {
    let mut store = master();
    assert_eq!(serve(&mut store, b"*1\r\n$4\r\nPING\r\n", 1000), vec![b"+PONG\r\n".to_vec()]);
    assert_eq!(
        serve(&mut store, b"*2\r\n$4\r\nECHO\r\n$2\r\nhi\r\n", 1000),
        vec![b"+hi\r\n".to_vec()]
    );
    assert_eq!(
        serve(
            &mut store,
            b"*5\r\n$3\r\nSET\r\n$1\r\nk\r\n$1\r\nv\r\n$2\r\nPX\r\n$3\r\n100\r\n",
            1000
        ),
        vec![b"+OK\r\n".to_vec()]
    );
    assert_eq!(
        serve(&mut store, b"*2\r\n$3\r\nGET\r\n$1\r\nk\r\n", 1000),
        vec![b"$1\r\nv\r\n".to_vec()]
    );
}

#[test]
fn set_then_get_and_unset_key() {
    let mut store = master();
    serve(&mut store, &encode_request("SET k v"), 10);
    assert_eq!(serve(&mut store, &encode_request("GET k"), 10), vec![b"$1\r\nv\r\n".to_vec()]);
    assert_eq!(serve(&mut store, &encode_request("GET other"), 10), vec![b"$-1\r\n".to_vec()]);
}

#[test]
fn zero_ttl_expires_after_any_delay() {
    let mut store = master();
    serve(&mut store, &encode_request("SET k v PX 0"), 500);
    assert_eq!(serve(&mut store, &encode_request("GET k"), 500), vec![b"$1\r\nv\r\n".to_vec()]);
    assert_eq!(serve(&mut store, &encode_request("GET k"), 501), vec![b"$-1\r\n".to_vec()]);
}

#[test]
fn ttl_expires_at_its_instant() {
    let mut store = master();
    serve(&mut store, &encode_request("SET k v PX 100"), 1000);
    assert_eq!(store.get("k", 1100), Some("v".to_string()));
    assert_eq!(store.get("k", 1101), None);
}

#[test]
fn overwrite_keeps_second_value() {
    let mut store = master();
    serve(&mut store, &encode_request("SET k v1"), 1);
    serve(&mut store, &encode_request("SET k v2"), 2);
    assert_eq!(serve(&mut store, &encode_request("GET k"), 3), vec![b"$2\r\nv2\r\n".to_vec()]);
}

#[test]
fn distinct_keys_both_kept() {
    let mut store = master();
    serve(&mut store, &encode_request("SET a 1"), 1);
    serve(&mut store, &encode_request("SET b 2"), 1);
    assert_eq!(store.get("a", 2), Some("1".to_string()));
    assert_eq!(store.get("b", 2), Some("2".to_string()));
}

#[test]
fn parse_error_gets_error_reply_and_keeps_serving() {
    let mut store = master();
    let mut mode = ConnectionMode::Serving;
    let step = store.handle_request(&mut mode, command_of(&encode_request("FLY away")), 1);
    assert_eq!(step.replies, vec![b"-ERR unknown command\r\n".to_vec()]);
    assert_eq!(mode, ConnectionMode::Serving);
    let step = store.handle_request(&mut mode, command_of(&encode_request("SET k v PX x")), 1);
    assert_eq!(step.replies, vec![b"-ERR unknown command\r\n".to_vec()]);
    assert_eq!(mode, ConnectionMode::Serving);
}

#[test]
fn protocol_error_closes_connection() {
    let mut store = master();
    let mut mode = ConnectionMode::Serving;
    let step = store.handle_request(&mut mode, Err(CommandError::ProtocolError), 1);
    assert!(step.replies.is_empty());
    assert!(step.propagate.is_none());
    assert_eq!(mode, ConnectionMode::Closed);
}

#[test]
fn info_replication_and_unknown_section() {
    let mut store = master();
    let expected = "role:master\r\nmaster_replid:8371b4fb1155b71f4a04d3e1bc3e18c4a990aeeb\r\nmaster_repl_offset:0";
    let frame = format!("${}\r\n{}\r\n", expected.len(), expected).into_bytes();
    assert_eq!(serve(&mut store, &encode_request("INFO replication"), 1), vec![frame]);
    assert_eq!(
        serve(&mut store, &encode_request("INFO keyspace"), 1),
        vec![b"-ERR unknown section\r\n".to_vec()]
    );
    let slave = ReplicationConfig::new(Role::Slave);
    assert!(slave.to_string().starts_with("role:slave\r\n"));
    assert_eq!(Role::Master.to_string(), "master");
}

#[test]
fn replconf_is_acknowledged() {
    let mut store = master();
    assert_eq!(
        serve(&mut store, &encode_request("REPLCONF listening-port 6380"), 1),
        vec![b"+OK\r\n".to_vec()]
    );
    assert_eq!(serve(&mut store, &encode_request("REPLCONF"), 1), vec![b"+OK\r\n".to_vec()]);
}

#[test]
fn psync_sends_snapshot_and_promotes() {
    let mut store = master();
    let mut mode = ConnectionMode::Serving;
    let step = store.handle_request(&mut mode, command_of(&encode_request("PSYNC ? -1")), 1);
    assert_eq!(mode, ConnectionMode::Promoted);
    assert_eq!(step.replies.len(), 2);
    assert_eq!(
        step.replies[0],
        b"+FULLRESYNC 8371b4fb1155b71f4a04d3e1bc3e18c4a990aeeb 0\r\n".to_vec()
    );
    let rdb = empty_rdb();
    assert_eq!(rdb.len(), 88);
    assert_eq!(&rdb[..5], b"REDIS");
    let mut expected = b"$88\r\n".to_vec();
    expected.extend_from_slice(&rdb);
    assert_eq!(step.replies[1], expected);
}

#[test]
fn master_propagates_set_with_expiry_instant() {
    let mut store = master();
    let mut mode = ConnectionMode::Serving;
    let step = store.handle_request(&mut mode, command_of(&encode_request("SET k v PX 100")), 1000);
    assert_eq!(step.propagate, Some(encode_request("SET k v PX 1100")));
    let step = store.handle_request(&mut mode, command_of(&encode_request("SET k v")), 1000);
    assert_eq!(step.propagate, Some(encode_request("SET k v")));
    let step = store.handle_request(&mut mode, command_of(&encode_request("GET k")), 1000);
    assert_eq!(step.propagate, None);
}

#[test]
fn slave_does_not_propagate() {
    let mut store = RedisStore::new(Role::Slave, "127.0.0.1:6380".to_string());
    let mut mode = ConnectionMode::Serving;
    let step = store.handle_request(&mut mode, command_of(&encode_request("SET k v")), 1);
    assert_eq!(step.replies, vec![b"+OK\r\n".to_vec()]);
    assert_eq!(step.propagate, None);
    assert_eq!(store.role(), Role::Slave);
}

#[test]
fn ttl_saturates_at_largest_instant() {
    let mut store = master();
    let mut mode = ConnectionMode::Serving;
    let step = store.handle_request(
        &mut mode,
        Ok(Command::SET("k".to_string(), "v".to_string(), Some(u64::MAX))),
        5,
    );
    assert_eq!(step.propagate, Some(encode_request("SET k v PX 18446744073709551615")));
    assert_eq!(store.get("k", u64::MAX), Some("v".to_string()));
}

#[test]
fn replica_applies_commands_from_master() {
    let mut store = RedisStore::new(Role::Slave, "127.0.0.1:6380".to_string());
    match store.apply_from_master(Command::REPLCONF(Some(("GETACK".to_string(), "*".to_string())))) {
        ReplicaAction::Reply(f) => assert_eq!(f, encode_request("REPLCONF ACK 0")),
        _ => panic!("expected a reply"),
    }
    assert!(matches!(
        store.apply_from_master(Command::SET("k".to_string(), "v".to_string(), Some(2000))),
        ReplicaAction::Applied
    ));
    assert_eq!(store.get("k", 2000), Some("v".to_string()));
    assert_eq!(store.get("k", 2001), None);
    assert!(matches!(store.apply_from_master(Command::PING), ReplicaAction::Unexpected));
}

#[test]
fn handshake_sequence() {
    let (mut h, first) = Handshake::start("127.0.0.1:6380").unwrap();
    assert_eq!(first, encode_request("PING"));
    match h.on_reply(Reply::Text("PONG".to_string())) {
        HandshakeAction::Send(f) => assert_eq!(f, encode_request("REPLCONF listening-port 6380")),
        _ => panic!("expected a request"),
    }
    match h.on_reply(Reply::Text("OK".to_string())) {
        HandshakeAction::Send(f) => assert_eq!(f, encode_request("REPLCONF capa psync2")),
        _ => panic!("expected a request"),
    }
    match h.on_reply(Reply::Text("OK".to_string())) {
        HandshakeAction::Send(f) => assert_eq!(f, encode_request("PSYNC ? -1")),
        _ => panic!("expected a request"),
    }
    assert!(matches!(
        h.on_reply(Reply::Text("FULLRESYNC abc 0".to_string())),
        HandshakeAction::Read
    ));
    match h.on_reply(Reply::Payload(vec![1, 2, 3])) {
        HandshakeAction::Synced(p) => assert_eq!(p, vec![1, 2, 3]),
        _ => panic!("expected the snapshot"),
    }
    assert_eq!(h.current_stage(), HandshakeStage::Synced);
}

#[test]
fn handshake_fails_on_wrong_reply() {
    let (mut h, _) = Handshake::start("localhost:7000").unwrap();
    assert!(matches!(h.on_reply(Reply::Text("NOPE".to_string())), HandshakeAction::Failed));
    assert_eq!(h.current_stage(), HandshakeStage::AwaitPong);
    assert!(Handshake::start("localhost").is_none());
}

#[test]
fn listening_port_of_address() {
    assert_eq!(listening_port("127.0.0.1:6380"), Some(b"6380".to_vec()));
    assert_eq!(listening_port("a:1:2"), Some(b"1".to_vec()));
    assert_eq!(listening_port("nocolon"), None);
}

#[test]
fn propagation_goes_on_after_failed_write() {
    let mut round = Propagation::new(3);
    assert_eq!(round.next_target(None), Some(0));
    assert_eq!(round.next_target(Some(false)), Some(1));
    assert_eq!(round.next_target(Some(true)), Some(2));
    assert_eq!(round.next_target(Some(false)), None);
    assert_eq!(round.failed(), &vec![0, 2]);
    let mut empty = Propagation::new(0);
    assert_eq!(empty.next_target(None), None);
}

#[test]
fn hex_to_bytes_pairs_digits() {
    assert_eq!(hex_to_bytes("0aFf"), Some(vec![0x0a, 0xff]));
    assert_eq!(hex_to_bytes("0a-F f"), Some(vec![0x0a, 0xff]));
    assert_eq!(hex_to_bytes(""), Some(vec![]));
    assert_eq!(hex_to_bytes("ab"), Some(vec![0xab]));
    assert_eq!(hex_to_bytes("abc"), None);
    assert_eq!(hex_to_bytes("abcde"), None);
    assert_eq!(hex_to_bytes("a b c"), None);
    assert_eq!(hex_to_bytes(EMPTY_RDB).map(|b| b.len()), Some(88));
}

#[test]
fn data_item_expiry() {
    let item = DataItem::new("v".to_string(), Some(10));
    assert_eq!(item.expired_or_return(10), Some("v".to_string()));
    assert_eq!(item.expired_or_return(11), None);
    let forever = DataItem::new("w".to_string(), None);
    assert_eq!(forever.expired_or_return(u64::MAX), Some("w".to_string()));
}

#[test]
fn in_memory_storage_and_core() {
    let mut s = InMemoryStorage::new();
    assert_eq!(s.get("k", 0), None);
    s.set("k".to_string(), "v".to_string(), Some(5));
    assert_eq!(s.get("k", 5), Some("v".to_string()));
    assert_eq!(s.get("k", 6), None);
    s.set("k".to_string(), "w".to_string(), None);
    assert_eq!(s.get("k", 6), Some("w".to_string()));
    let mut core = Core::new();
    core.set("x".to_string(), "y".to_string(), None);
    assert_eq!(core.get("x", 0), Some("y".to_string()));
}
