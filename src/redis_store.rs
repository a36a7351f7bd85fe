use vstd::prelude::*;
use vstd::string::*;
use vstd::slice::slice_to_vec;
use vstd::utf8::*;

use crate::codec::{
    array_frame, bulk, crlf, encode_array, encode_request, encode_response, header,
    request_frame, response_bytes, Reply, ReplyModel, ResponseType,
};
use crate::command::{
    decimal_chars, decimal_text, render, same_text, Command, CommandError, CommandView,
};
use crate::storage::in_memory_storage::InMemoryStorage;
use crate::storage::{lookup, text_option, KVStorage};
use crate::util::{hex_bytes, hex_to_bytes};

verus! {

/// The snapshot a master sends on a full resynchronisation: an empty database, in hex.
pub const EMPTY_RDB: &'static str = "524544495330303131fa0972656469732d76657205372e322e30fa0a72656469732d62697473c040fa056374696d65c26d08bc65fa08757365642d6d656dc2b0c41000fa08616f662d62617365c000fff06e3bfec0ff5aa2";

/// The replication id that a node reports.
pub const MASTER_REPLID: &'static str = "8371b4fb1155b71f4a04d3e1bc3e18c4a990aeeb";

/// The bytes of the empty snapshot.
pub open spec fn snapshot_bytes() -> Seq<u8> {
    match hex_bytes(encode_utf8(EMPTY_RDB@)) {
        Some(b) => b,
        None => Seq::empty(),
    }
}

/// A node's replication role, fixed when it starts.
#[derive(PartialEq, Eq, Structural, Clone, Copy, Debug)]
pub enum Role {
    Master,
    Slave,
}

/// The name of a role, as `INFO` reports it.
pub open spec fn role_name(r: Role) -> Seq<char> {
    match r {
        Role::Master => "master"@,
        Role::Slave => "slave"@,
    }
}

impl Role {
    /// The name of the role.
    pub fn to_string(&self) -> (r: String)
        ensures
            r@ == role_name(*self),
    {
        match self {
            Role::Master => String::from_str("master"),
            Role::Slave => String::from_str("slave"),
        }
    }
}

/// A node's replication identity: its role, replication id and offset.
pub struct ReplicationConfig {
    role: Role,
    master_replid: String,
    master_repl_offset: u64,
}

impl View for ReplicationConfig {
    type V = (Role, Seq<char>, u64);

    closed spec fn view(&self) -> (Role, Seq<char>, u64) {
        (self.role, self.master_replid@, self.master_repl_offset)
    }
}

/// The replication section of `INFO`: one `name:value` line per field, joined by `\r\n`.
pub open spec fn info_text(c: (Role, Seq<char>, u64)) -> Seq<char> {
    "role:"@ + role_name(c.0) + "\r\nmaster_replid:"@ + c.1 + "\r\nmaster_repl_offset:"@
        + decimal_chars(c.2 as nat)
}

impl ReplicationConfig {
    /// The identity of a node with `role`: the fixed replication id, offset 0.
    pub fn new(role: Role) -> (r: Self)
        ensures
            r@ == (role, MASTER_REPLID@, 0u64),
    {
        ReplicationConfig {
            role,
            master_replid: MASTER_REPLID.to_owned(),
            master_repl_offset: 0,
        }
    }

    /// The identity as the replication section of `INFO` shows it.
    pub fn to_string(&self) -> (r: String)
        ensures
            r@ == info_text(self@),
    {
        let mut out = String::from_str("role:");
        let role = self.role.to_string();
        out.append(role.as_str());
        out.append("\r\nmaster_replid:");
        out.append(self.master_replid.as_str());
        out.append("\r\nmaster_repl_offset:");
        let offset = decimal_text(self.master_repl_offset);
        out.append(offset.as_str());
        out
    }
}

/// The data of a node: its key-value storage.
pub struct Core {
    storage_engine: InMemoryStorage,
}

impl Core {
    /// A core with no entries.
    pub fn new() -> (r: Self)
        ensures
            r.entries() == Map::<Seq<char>, (Seq<char>, Option<u64>)>::empty(),
    {
        Core { storage_engine: InMemoryStorage::new() }
    }

    /// Each key with its value and expiry instant.
    pub closed spec fn entries(&self) -> Map<Seq<char>, (Seq<char>, Option<u64>)> {
        self.storage_engine.entries()
    }

    /// Stores `value` under `key`, expiring at `ttl` (milliseconds since the UNIX epoch).
    pub fn set(&mut self, key: String, value: String, ttl: Option<u64>)
        ensures
            final(self).entries() == old(self).entries().insert(key@, (value@, ttl)),
    {
        self.storage_engine.set(key, value, ttl);
    }

    /// The value under `key`, unless absent or expired at `now`.
    pub fn get(&self, key: &str, now: u64) -> (r: Option<String>)
        ensures
            text_option(r) == lookup(self.entries(), key@, now),
    {
        self.storage_engine.get(key, now)
    }
}

/// The instant a `SET` received at `now` expires at: `now` plus its time to live, held at
/// the largest instant when the sum does not fit.
pub open spec fn expiry(now: u64, ttl: Option<u64>) -> Option<u64> {
    match ttl {
        Some(t) => Some(
            if now + t > u64::MAX {
                u64::MAX
            } else {
                (now + t) as u64
            },
        ),
        None => None,
    }
}

/// The wire form of a simple string reply.
pub open spec fn simple_reply(s: Seq<char>) -> Seq<u8> {
    seq![43u8] + encode_utf8(s) + crlf()
}

/// The wire form of an error reply.
pub open spec fn error_reply(s: Seq<char>) -> Seq<u8> {
    seq![45u8] + encode_utf8(s) + crlf()
}

/// The wire form of an absent bulk string.
pub open spec fn null_reply() -> Seq<u8> {
    seq![36u8, 45u8, 49u8, 13u8, 10u8]
}

/// Whether a client connection still hands its requests to the command loop.
#[derive(PartialEq, Eq, Structural, Clone, Copy, Debug)]
pub enum ConnectionMode {
    /// Requests are read and answered
    Serving,
    /// The connection belongs to the replica registry; only propagation writes to it
    Promoted,
    /// The connection is done
    Closed,
}

/// What the command loop does after one request of a client connection.
pub struct ConnectionStep {
    /// Frames to write back, in order
    pub replies: Vec<Vec<u8>>,
    /// A request frame to write to every registered replica, in registration order
    pub propagate: Option<Vec<u8>>,
}

/// The frames of a step, as byte sequences.
pub open spec fn frames(replies: Vec<Vec<u8>>) -> Seq<Seq<u8>> {
    replies@.map_values(|r: Vec<u8>| r@)
}

/// A key-value node: its storage, its address and its replication identity.
pub struct RedisStore {
    address: String,
    core: Core,
    repli_config: ReplicationConfig,
}

impl RedisStore {
    /// Each key with its value and expiry instant.
    pub closed spec fn entries(&self) -> Map<Seq<char>, (Seq<char>, Option<u64>)> {
        self.core.entries()
    }

    /// The node's replication identity.
    pub closed spec fn config(&self) -> (Role, Seq<char>, u64) {
        self.repli_config@
    }

    /// The address the node listens on, `host:port`.
    pub closed spec fn address_text(&self) -> Seq<char> {
        self.address@
    }

    /// A node with `role`, listening on `address`, with no entries.
    pub fn new(role: Role, address: String) -> (r: Self)
        ensures
            r.entries() == Map::<Seq<char>, (Seq<char>, Option<u64>)>::empty(),
            r.config() == (role, MASTER_REPLID@, 0u64),
            r.address_text() == address@,
    {
        RedisStore { address, core: Core::new(), repli_config: ReplicationConfig::new(role) }
    }

    /// The address the node listens on.
    pub fn address(&self) -> (r: &str)
        ensures
            r@ == self.address_text(),
    {
        self.address.as_str()
    }

    /// The node's role.
    pub fn role(&self) -> (r: Role)
        ensures
            r == self.config().0,
    {
        self.repli_config.role
    }

    /// Stores `value` under `key`, expiring at `ttl` (milliseconds since the UNIX epoch).
    pub fn set(&mut self, key: String, value: String, ttl: Option<u64>)
        ensures
            final(self).entries() == old(self).entries().insert(key@, (value@, ttl)),
            final(self).config() == old(self).config(),
            final(self).address_text() == old(self).address_text(),
    {
        self.core.set(key, value, ttl);
    }

    /// The value under `key`, unless absent or expired at `now`.
    pub fn get(&self, key: &str, now: u64) -> (r: Option<String>)
        ensures
            text_option(r) == lookup(self.entries(), key@, now),
    {
        self.core.get(key, now)
    }

    /// The frame that sends `cmd` on to the replicas: its canonical text as a request, when
    /// this node is a master; nothing on a slave.
    pub fn replica_propagation(&self, cmd: &Command) -> (r: Option<Vec<u8>>)
        ensures
            match r {
                Some(f) => self.config().0 == Role::Master && f@ == request_frame(render(cmd@)),
                None => self.config().0 != Role::Master,
            },
    {
        if self.repli_config.role == Role::Master {
            let text = cmd.to_string();
            Some(encode_request(text.as_str()))
        } else {
            None
        }
    }

    /// Answers one request of a client connection at instant `now` (milliseconds since the
    /// UNIX epoch). A malformed frame closes the connection; a request that is no valid
    /// command gets an error reply. `PSYNC` hands the connection over to the replica
    /// registry; `SET` stores its value and, on a master, is sent on to the replicas with
    /// its expiry instant as the `PX` value.
    /// Only a connection that is still serving is handed a request; the mode it is left in
    /// says whether it gets another.
    pub fn handle_request(
        &mut self,
        mode: &mut ConnectionMode,
        request: Result<Command, CommandError>,
        now: u64,
    ) -> (r: ConnectionStep)
        requires
            *old(mode) == ConnectionMode::Serving,
        ensures
            final(self).config() == old(self).config(),
            final(self).address_text() == old(self).address_text(),
            match request {
                Err(CommandError::ProtocolError) => {
                    &&& frames(r.replies) == Seq::<Seq<u8>>::empty()
                    &&& r.propagate is None
                    &&& *final(mode) == ConnectionMode::Closed
                    &&& final(self).entries() == old(self).entries()
                },
                Err(_) => {
                    &&& frames(r.replies) == seq![error_reply("ERR unknown command"@)]
                    &&& r.propagate is None
                    &&& *final(mode) == ConnectionMode::Serving
                    &&& final(self).entries() == old(self).entries()
                },
                Ok(cmd) => match cmd@ {
                    CommandView::SetValue(k, v, ttl) => {
                        &&& final(self).entries() == old(self).entries().insert(
                            k,
                            (v, expiry(now, ttl)),
                        )
                        &&& frames(r.replies) == seq![simple_reply("OK"@)]
                        &&& *final(mode) == ConnectionMode::Serving
                        &&& match r.propagate {
                            Some(f) => old(self).config().0 == Role::Master && f@ == request_frame(
                                render(CommandView::SetValue(k, v, expiry(now, ttl))),
                            ),
                            None => old(self).config().0 != Role::Master,
                        }
                    },
                    CommandView::Ping => {
                        &&& final(self).entries() == old(self).entries()
                        &&& r.propagate is None
                        &&& frames(r.replies) == seq![simple_reply("PONG"@)]
                        &&& *final(mode) == ConnectionMode::Serving
                    },
                    CommandView::Echo(t) => {
                        &&& final(self).entries() == old(self).entries()
                        &&& r.propagate is None
                        &&& frames(r.replies) == seq![simple_reply(t)]
                        &&& *final(mode) == ConnectionMode::Serving
                    },
                    CommandView::ReplConf(_) => {
                        &&& final(self).entries() == old(self).entries()
                        &&& r.propagate is None
                        &&& frames(r.replies) == seq![simple_reply("OK"@)]
                        &&& *final(mode) == ConnectionMode::Serving
                    },
                    CommandView::Psync(_, _) => {
                        &&& final(self).entries() == old(self).entries()
                        &&& r.propagate is None
                        &&& frames(r.replies) == seq![
                            simple_reply("FULLRESYNC "@ + old(self).config().1 + " 0"@),
                            header(36u8, snapshot_bytes().len()) + snapshot_bytes(),
                        ]
                        &&& *final(mode) == ConnectionMode::Promoted
                    },
                    CommandView::Info(section) => {
                        &&& final(self).entries() == old(self).entries()
                        &&& r.propagate is None
                        &&& frames(r.replies) == (if section == "replication"@ {
                            seq![bulk(encode_utf8(info_text(old(self).config())))]
                        } else {
                            seq![error_reply("ERR unknown section"@)]
                        })
                        &&& *final(mode) == ConnectionMode::Serving
                    },
                    CommandView::GetValue(k) => {
                        &&& final(self).entries() == old(self).entries()
                        &&& r.propagate is None
                        &&& frames(r.replies) == seq![
                            match lookup(old(self).entries(), k, now) {
                                Some(v) => bulk(encode_utf8(v)),
                                None => null_reply(),
                            },
                        ]
                        &&& *final(mode) == ConnectionMode::Serving
                    },
                },
            },
    {
        let cmd = match request {
            Ok(cmd) => cmd,
            Err(CommandError::ProtocolError) => {
                *mode = ConnectionMode::Closed;
                return ConnectionStep { replies: Vec::new(), propagate: None };
            },
            Err(_) => {
                return ConnectionStep {
                    replies: one_reply(
                        ResponseType::SimpleError(String::from_str("ERR unknown command")),
                    ),
                    propagate: None,
                };
            },
        };
        match cmd {
            Command::PING => ConnectionStep {
                replies: one_reply(ResponseType::SimpleString(String::from_str("PONG"))),
                propagate: None,
            },
            Command::ECHO(content) => ConnectionStep {
                replies: one_reply(ResponseType::SimpleString(content)),
                propagate: None,
            },
            Command::REPLCONF(_) => ConnectionStep {
                replies: one_reply(ResponseType::SimpleString(String::from_str("OK"))),
                propagate: None,
            },
            Command::PSYNC(_, _) => {
                let mut line = String::from_str("FULLRESYNC ");
                line.append(self.repli_config.master_replid.as_str());
                line.append(" 0");
                let mut replies: Vec<Vec<u8>> = Vec::new();
                replies.push(encode_response(&ResponseType::SimpleString(line)));
                replies.push(encode_response(&ResponseType::RdbFile(empty_rdb())));
                assert(frames(replies) =~= seq![
                    simple_reply("FULLRESYNC "@ + old(self).config().1 + " 0"@),
                    header(36u8, snapshot_bytes().len()) + snapshot_bytes(),
                ]);
                *mode = ConnectionMode::Promoted;
                ConnectionStep { replies, propagate: None }
            },
            Command::INFO(section) => {
                let reply = if same_text(section.as_str(), "replication") {
                    ResponseType::BulkString(Some(self.repli_config.to_string()))
                } else {
                    ResponseType::SimpleError(String::from_str("ERR unknown section"))
                };
                ConnectionStep {
                    replies: one_reply(reply),
                    propagate: None,
                }
            },
            Command::SET(key, value, ttl) => {
                let expires = match ttl {
                    Some(t) => Some(now.saturating_add(t)),
                    None => None,
                };
                let forwarded = Command::SET(key.clone(), value.clone(), expires);
                self.set(key, value, expires);
                let propagate = self.replica_propagation(&forwarded);
                ConnectionStep {
                    replies: one_reply(ResponseType::SimpleString(String::from_str("OK"))),
                    propagate,
                }
            },
            Command::GET(key) => {
                let reply = ResponseType::BulkString(self.get(key.as_str(), now));
                ConnectionStep {
                    replies: one_reply(reply),
                    propagate: None,
                }
            },
        }
    }
}

/// What a replica does with a command its master sent.
pub enum ReplicaAction {
    /// Write this frame back to the master
    Reply(Vec<u8>),
    /// The command was applied to the storage
    Applied,
    /// A command a master does not send on; it is left alone
    Unexpected,
}

impl RedisStore {
    /// Applies a command that the master sent on. `REPLCONF` is answered with
    /// `REPLCONF ACK 0`; `SET` is stored, its `PX` value read as the expiry instant in
    /// milliseconds since the UNIX epoch; anything else is left alone.
    pub fn apply_from_master(&mut self, cmd: Command) -> (r: ReplicaAction)
        ensures
            final(self).config() == old(self).config(),
            final(self).address_text() == old(self).address_text(),
            match cmd@ {
                CommandView::ReplConf(_) => final(self).entries() == old(self).entries()
                    && (r matches ReplicaAction::Reply(f) && f@ == request_frame("REPLCONF ACK 0"@)),
                CommandView::SetValue(k, v, ttl) => final(self).entries() == old(
                    self,
                ).entries().insert(k, (v, ttl)) && r is Applied,
                _ => final(self).entries() == old(self).entries() && r is Unexpected,
            },
    {
        match cmd {
            Command::REPLCONF(_) => {
                let ack = ResponseType::RESPArray(String::from_str("REPLCONF ACK 0"));
                ReplicaAction::Reply(encode_response(&ack))
            },
            Command::SET(key, value, ttl) => {
                self.set(key, value, ttl);
                ReplicaAction::Applied
            },
            _ => ReplicaAction::Unexpected,
        }
    }
}

/// The first index at or after `from` that holds `c`.
pub open spec fn find_byte(b: Seq<u8>, c: u8, from: int) -> Option<int>
    decreases b.len() - from,
{
    if from < 0 || from >= b.len() {
        None
    } else if b[from] == c {
        Some(from)
    } else {
        find_byte(b, c, from + 1)
    }
}

/// The port of a `host:port` address: the text between the first `:` and the next one (or
/// the end); `None` without a `:`.
pub open spec fn port_of(address: Seq<u8>) -> Option<Seq<u8>> {
    match find_byte(address, 58u8, 0) {
        None => None,
        Some(i) => match find_byte(address, 58u8, i + 1) {
            Some(j) => Some(address.subrange(i + 1, j)),
            None => Some(address.subrange(i + 1, address.len() as int)),
        },
    }
}

fn find_byte_from(b: &[u8], c: u8, from: usize) -> (r: Option<usize>)
    ensures
        r is None ==> find_byte(b@, c, from as int) is None,
        r matches Some(i) ==> find_byte(b@, c, from as int) == Some(i as int) && from <= i < b@.len(),
{
    let mut i: usize = from;
    while i < b.len()
        invariant
            from <= i,
            find_byte(b@, c, from as int) == find_byte(b@, c, i as int),
        decreases b.len() - i,
    {
        if b[i] == c {
            return Some(i);
        }
        i = i + 1;
    }
    None
}

/// The port of a `host:port` address, as [`port_of`] gives it.
pub fn listening_port(address: &str) -> (r: Option<Vec<u8>>)
    ensures
        match r {
            Some(p) => port_of(encode_utf8(address@)) == Some(p@),
            None => port_of(encode_utf8(address@)) is None,
        },
{
    let b = address.as_bytes();
    let blen = b.len();
    let first = find_byte_from(b, 58u8, 0);
    if first.is_none() {
        return None;
    }
    let i = first.unwrap();
    let end = match find_byte_from(b, 58u8, i + 1) {
        Some(j) => j,
        None => blen,
    };
    Some(slice_to_vec(&b[i + 1..end]))
}

/// Where a replica stands in its handshake with the master.
#[derive(PartialEq, Eq, Structural, Clone, Copy, Debug)]
pub enum HandshakeStage {
    /// `PING` sent
    AwaitPong,
    /// `REPLCONF listening-port` sent
    AwaitPortAck,
    /// `REPLCONF capa psync2` sent
    AwaitCapaAck,
    /// `PSYNC ? -1` sent
    AwaitFullResync,
    /// The full resynchronisation line read; the snapshot comes next
    AwaitSnapshot,
    /// The snapshot arrived; commands come next
    Synced,
}

/// What a replica does next in its handshake.
pub enum HandshakeAction {
    /// Write this request, then read the next reply
    Send(Vec<u8>),
    /// Read the next reply
    Read,
    /// The snapshot, which ends the handshake
    Synced(Vec<u8>),
    /// The master answered other than the handshake requires
    Failed,
}

/// A replica's handshake with its master, one reply at a time.
pub struct Handshake {
    stage: HandshakeStage,
    port: Vec<u8>,
}

impl Handshake {
    /// The stage reached.
    pub closed spec fn stage(&self) -> HandshakeStage {
        self.stage
    }

    /// The port announced to the master.
    pub closed spec fn port(&self) -> Seq<u8> {
        self.port@
    }

    /// Starts the handshake of a replica listening on `address`: the first request is
    /// `PING`. `None` when the address names no port.
    pub fn start(address: &str) -> (r: Option<(Handshake, Vec<u8>)>)
        ensures
            match r {
                Some((h, f)) => h.stage() == HandshakeStage::AwaitPong && port_of(
                    encode_utf8(address@),
                ) == Some(h.port()) && f@ == request_frame("PING"@),
                None => port_of(encode_utf8(address@)) is None,
            },
    {
        match listening_port(address) {
            Some(port) => Some(
                (Handshake { stage: HandshakeStage::AwaitPong, port }, encode_request("PING")),
            ),
            None => None,
        }
    }

    /// The stage reached.
    pub fn current_stage(&self) -> (r: HandshakeStage)
        ensures
            r == self.stage(),
    {
        self.stage
    }

    /// Takes the master's next reply. `PONG`, then `OK` twice, must come back to the first
    /// three requests; the reply to `PSYNC` is read and passed over; the reply after it is
    /// the snapshot.
    pub fn on_reply(&mut self, reply: Reply) -> (r: HandshakeAction)
        ensures
            final(self).port() == old(self).port(),
            match old(self).stage() {
                HandshakeStage::AwaitPong => if reply@ == ReplyModel::Text("PONG"@) {
                    final(self).stage() == HandshakeStage::AwaitPortAck && (r matches HandshakeAction::Send(f)
                        && f@ == array_frame(
                        seq![encode_utf8("REPLCONF"@), encode_utf8("listening-port"@), old(self).port()],
                    ))
                } else {
                    final(self).stage() == old(self).stage() && r is Failed
                },
                HandshakeStage::AwaitPortAck => if reply@ == ReplyModel::Text("OK"@) {
                    final(self).stage() == HandshakeStage::AwaitCapaAck && (r matches HandshakeAction::Send(f)
                        && f@ == request_frame("REPLCONF capa psync2"@))
                } else {
                    final(self).stage() == old(self).stage() && r is Failed
                },
                HandshakeStage::AwaitCapaAck => if reply@ == ReplyModel::Text("OK"@) {
                    final(self).stage() == HandshakeStage::AwaitFullResync && (r matches HandshakeAction::Send(f)
                        && f@ == request_frame("PSYNC ? -1"@))
                } else {
                    final(self).stage() == old(self).stage() && r is Failed
                },
                HandshakeStage::AwaitFullResync => final(self).stage() == HandshakeStage::AwaitSnapshot
                    && r is Read,
                HandshakeStage::AwaitSnapshot => final(self).stage() == HandshakeStage::Synced && match reply@ {
                    ReplyModel::Payload(p) => (r matches HandshakeAction::Synced(s) && s@ == p),
                    ReplyModel::Text(t) => (r matches HandshakeAction::Synced(s) && s@ == encode_utf8(t)),
                },
                HandshakeStage::Synced => final(self).stage() == old(self).stage() && r is Failed,
            },
    {
        match self.stage {
            HandshakeStage::AwaitPong => {
                if reply_is(&reply, "PONG") {
                    self.stage = HandshakeStage::AwaitPortAck;
                    let mut tokens: Vec<Vec<u8>> = Vec::new();
                    tokens.push(slice_to_vec("REPLCONF".as_bytes()));
                    tokens.push(slice_to_vec("listening-port".as_bytes()));
                    tokens.push(slice_to_vec(self.port.as_slice()));
                    assert(tokens@.map_values(|v: Vec<u8>| v@) =~= seq![
                        encode_utf8("REPLCONF"@),
                        encode_utf8("listening-port"@),
                        self.port@,
                    ]);
                    HandshakeAction::Send(encode_array(&tokens))
                } else {
                    HandshakeAction::Failed
                }
            },
            HandshakeStage::AwaitPortAck => {
                if reply_is(&reply, "OK") {
                    self.stage = HandshakeStage::AwaitCapaAck;
                    HandshakeAction::Send(encode_request("REPLCONF capa psync2"))
                } else {
                    HandshakeAction::Failed
                }
            },
            HandshakeStage::AwaitCapaAck => {
                if reply_is(&reply, "OK") {
                    self.stage = HandshakeStage::AwaitFullResync;
                    HandshakeAction::Send(encode_request("PSYNC ? -1"))
                } else {
                    HandshakeAction::Failed
                }
            },
            HandshakeStage::AwaitFullResync => {
                self.stage = HandshakeStage::AwaitSnapshot;
                HandshakeAction::Read
            },
            HandshakeStage::AwaitSnapshot => {
                self.stage = HandshakeStage::Synced;
                match reply {
                    Reply::Payload(p) => HandshakeAction::Synced(p),
                    Reply::Text(t) => HandshakeAction::Synced(slice_to_vec(t.as_str().as_bytes())),
                }
            },
            HandshakeStage::Synced => HandshakeAction::Failed,
        }
    }
}

fn reply_is(reply: &Reply, text: &str) -> (r: bool)
    ensures
        r == (reply@ == ReplyModel::Text(text@)),
{
    match reply {
        Reply::Text(t) => same_text(t.as_str(), text),
        Reply::Payload(_) => false,
    }
}

/// One call of [`Propagation::next_target`] on a round in state `s`: the failure of the
/// write before is recorded, and the next replica in order is handed out while one is left.
pub open spec fn propagation_step(s: (nat, nat, Seq<usize>), last_write_ok: Option<bool>) -> (
    (nat, nat, Seq<usize>),
    Option<usize>,
) {
    let failed = if last_write_ok == Some(false) {
        s.2.push((s.1 - 1) as usize)
    } else {
        s.2
    };
    if s.1 < s.0 {
        ((s.0, s.1 + 1, failed), Some(s.1 as usize))
    } else {
        ((s.0, s.1, failed), None)
    }
}

/// The calls of a round: the first reports nothing, each later one how the write before it
/// went.
pub open spec fn round_calls(outcomes: Seq<bool>) -> Seq<Option<bool>> {
    seq![None::<bool>] + outcomes.map_values(|ok: bool| Some(ok))
}

/// Runs `calls` on a round in state `s`: the state reached and what each call returned.
pub open spec fn run_round(s: (nat, nat, Seq<usize>), calls: Seq<Option<bool>>) -> (
    (nat, nat, Seq<usize>),
    Seq<Option<usize>>,
)
    decreases calls.len(),
{
    if calls.len() == 0 {
        (s, Seq::empty())
    } else {
        let (s1, r) = propagation_step(s, calls[0]);
        let (end, rs) = run_round(s1, calls.drop_first());
        (end, seq![r] + rs)
    }
}

/// The indices whose write failed.
pub open spec fn failed_indices(outcomes: Seq<bool>) -> Seq<usize>
    decreases outcomes.len(),
{
    if outcomes.len() == 0 {
        Seq::empty()
    } else if outcomes.last() {
        failed_indices(outcomes.drop_last())
    } else {
        failed_indices(outcomes.drop_last()).push((outcomes.len() - 1) as usize)
    }
}

proof fn lemma_round_from(total: nat, outcomes: Seq<bool>, k: nat)
    requires
        outcomes.len() == total,
        total <= usize::MAX,
        1 <= k <= total,
    ensures
        run_round(
            (total, k, failed_indices(outcomes.take(k as int - 1))),
            outcomes.subrange(k as int - 1, total as int).map_values(|ok: bool| Some(ok)),
        ) == (
            (total, total, failed_indices(outcomes)),
            Seq::new((total - k) as nat, |i: int| Some((k + i) as usize)).push(None::<usize>),
        ),
    decreases total - k,
{
    let calls = outcomes.subrange(k as int - 1, total as int).map_values(|ok: bool| Some(ok));
    let ok = outcomes[k as int - 1];
    assert(outcomes.take(k as int).drop_last() == outcomes.take(k as int - 1));
    assert(outcomes.take(k as int).last() == ok);
    let s0 = (total, k, failed_indices(outcomes.take(k as int - 1)));
    assert(calls[0] == Some(ok));
    let (s1, r) = propagation_step(s0, calls[0]);
    assert(s1.2 == failed_indices(outcomes.take(k as int)));
    let rest = run_round(s1, calls.drop_first());
    assert(run_round(s0, calls) == (rest.0, seq![r] + rest.1));
    if k < total {
        assert(calls.drop_first() =~= outcomes.subrange(k as int, total as int).map_values(
            |ok: bool| Some(ok),
        ));
        assert(s1 == (total, k + 1, failed_indices(outcomes.take(k as int))));
        assert(r == Some(k as usize));
        lemma_round_from(total, outcomes, k + 1);
        assert((k + 1) as int - 1 == k as int);
        assert(seq![Some(k as usize)] + Seq::new((total - k - 1) as nat, |i: int| Some((k + 1 + i) as usize)).push(None::<usize>)
            =~= Seq::new((total - k) as nat, |i: int| Some((k + i) as usize)).push(None::<usize>));
    } else {
        assert(outcomes.take(k as int) == outcomes);
        assert(calls.drop_first() =~= Seq::<Option<bool>>::empty());
        assert(r is None);
        assert(rest == (s1, Seq::<Option<usize>>::empty()));
        assert(seq![None::<usize>] =~= Seq::new(0nat, |i: int| Some((k + i) as usize)).push(None::<usize>));
    }
}

/// A propagation round reaches every replica, in registration order, whatever becomes of
/// the writes: over `n` replicas, with any outcome for each write, the calls of the round
/// hand out `0, 1, ..., n - 1` and then nothing, and the round ends having recorded exactly
/// the replicas whose write failed.
pub proof fn lemma_round_reaches_every_replica(n: usize, outcomes: Seq<bool>)
    requires
        outcomes.len() == n,
    ensures
        run_round((n as nat, 0nat, Seq::empty()), round_calls(outcomes)) == (
            (n as nat, n as nat, failed_indices(outcomes)),
            Seq::new(n as nat, |i: int| Some(i as usize)).push(None::<usize>),
        ),
{
    let calls = round_calls(outcomes);
    let s0 = (n as nat, 0nat, Seq::<usize>::empty());
    assert(calls[0] == None::<bool>);
    let (s1, r) = propagation_step(s0, calls[0]);
    assert(calls.drop_first() =~= outcomes.map_values(|ok: bool| Some(ok)));
    let rest = run_round(s1, calls.drop_first());
    assert(run_round(s0, calls) == (rest.0, seq![r] + rest.1));
    if n == 0 {
        assert(outcomes =~= Seq::<bool>::empty());
        assert(calls.drop_first() =~= Seq::<Option<bool>>::empty());
        assert(seq![None::<usize>] =~= Seq::new(0nat, |i: int| Some(i as usize)).push(None::<usize>));
    } else {
        assert(outcomes.take(0) =~= Seq::<bool>::empty());
        assert(outcomes.subrange(0, n as int) =~= outcomes);
        assert(s1 == (n as nat, 1nat, failed_indices(outcomes.take(0))));
        lemma_round_from(n as nat, outcomes, 1);
        assert(outcomes.subrange(0, n as int).map_values(|ok: bool| Some(ok)) == calls.drop_first());
        assert(seq![Some(0usize)] + Seq::new((n - 1) as nat, |i: int| Some((1 + i) as usize)).push(None::<usize>)
            =~= Seq::new(n as nat, |i: int| Some(i as usize)).push(None::<usize>));
    }
}

/// One frame's way through the replica registry: every registered replica is tried once,
/// in registration order, whatever became of the writes before it.
pub struct Propagation {
    total: usize,
    next: usize,
    failed: Vec<usize>,
}

impl View for Propagation {
    /// The number of replicas, the number tried so far, and those whose write failed.
    type V = (nat, nat, Seq<usize>);

    closed spec fn view(&self) -> (nat, nat, Seq<usize>) {
        (self.total as nat, self.next as nat, self.failed@)
    }
}

impl Propagation {
    /// A round over `total` replicas, none tried yet.
    pub fn new(total: usize) -> (r: Self)
        ensures
            r@ == (total as nat, 0nat, Seq::<usize>::empty()),
    {
        Propagation { total, next: 0, failed: Vec::new() }
    }

    /// The replica to write to next, or `None` once every one has been tried.
    /// `last_write_ok` tells how the write to the replica handed out before went; a
    /// failed write is recorded and the round goes on.
    pub fn next_target(&mut self, last_write_ok: Option<bool>) -> (r: Option<usize>)
        requires
            old(self)@.1 <= old(self)@.0,
            last_write_ok is Some ==> old(self)@.1 > 0,
        ensures
            final(self)@.1 <= final(self)@.0,
            (final(self)@, r) == propagation_step(old(self)@, last_write_ok),
    {
        if last_write_ok == Some(false) {
            self.failed.push(self.next - 1);
        }
        if self.next < self.total {
            let target = self.next;
            self.next = self.next + 1;
            Some(target)
        } else {
            None
        }
    }

    /// The replicas whose write failed, in the order they were tried.
    pub fn failed(&self) -> (r: &Vec<usize>)
        ensures
            r@ == self@.2,
    {
        &self.failed
    }
}

/// An entry stored with a time to live of 0 milliseconds is gone for a read at any later
/// instant.
pub proof fn lemma_zero_ttl_expires(
    entries: Map<Seq<char>, (Seq<char>, Option<u64>)>,
    k: Seq<char>,
    v: Seq<char>,
    stored_at: u64,
    now: u64,
)
    requires
        stored_at < now,
    ensures
        lookup(entries.insert(k, (v, expiry(stored_at, Some(0u64)))), k, now) is None,
{
}

fn one_reply(response: ResponseType) -> (r: Vec<Vec<u8>>)
    ensures
        frames(r) == seq![response_bytes(response)],
{
    let mut replies: Vec<Vec<u8>> = Vec::new();
    replies.push(encode_response(&response));
    assert(frames(replies) =~= seq![response_bytes(response)]);
    replies
}

/// The empty snapshot's bytes.
pub fn empty_rdb() -> (r: Vec<u8>)
    ensures
        r@ == snapshot_bytes(),
{
    match hex_to_bytes(EMPTY_RDB) {
        Some(b) => b,
        None => Vec::new(),
    }
}

} // verus!
