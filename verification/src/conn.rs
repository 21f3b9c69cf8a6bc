//! Per-connection state: the lifecycle both connection ends share, the
//! client and server connection records, the client's load balancing, and
//! the heartbeat ping.

use vstd::prelude::*;

use crate::crypto::{derived_key_128, Aes128GcmCipher};
use crate::packet::PacketIP;
use crate::protocol::{Envelope, MessagePacket, MessagePing, Type};

verus! {

/// How many times the client tries to establish one connection.
pub const MAX_CONNECT_ATTEMPTS: u32 = 10;

/// Milliseconds between two connection attempts.
pub const CONNECT_RETRY_MS: u64 = 500;

/// Seconds between two heartbeat pings.
pub const PING_INTERVAL_SECS: u64 = 1;

/// Seconds between two reaper passes over the route table.
pub const REAP_INTERVAL_SECS: u64 = 60;

/// Capacity of a connection's write queue; a full queue blocks the
/// producer.
pub const WRITE_QUEUE_CAPACITY: usize = 256;

/// The lifecycle either end of a connection moves through.
#[derive(Debug, Clone, Copy, PartialEq, Eq, Structural)]
pub enum ConnPhase {
    Created,
    Connected,
    Closing,
    Closed,
}

/// What can happen to a connection.
#[derive(Debug, Clone, Copy, PartialEq, Eq, Structural)]
pub enum ConnEvent {
    /// The bidirectional stream opened.
    Opened,
    /// The read task saw end of stream.
    ReadEof,
    /// The read task failed to decode or read.
    ReadError,
    /// The write task failed to write.
    WriteError,
    /// The close channel fired.
    CloseSignal,
    /// Both tasks have returned.
    TasksDone,
}

/// The successor phase: opening connects; any error, end of stream or
/// close signal leaves a connected peer closing; once both tasks are done
/// the connection is closed, and closed is terminal.
pub open spec fn conn_step_spec(p: ConnPhase, e: ConnEvent) -> ConnPhase {
    match p {
        ConnPhase::Created => match e {
            ConnEvent::Opened => ConnPhase::Connected,
            ConnEvent::CloseSignal => ConnPhase::Closed,
            _ => ConnPhase::Created,
        },
        ConnPhase::Connected => match e {
            ConnEvent::ReadEof => ConnPhase::Closing,
            ConnEvent::ReadError => ConnPhase::Closing,
            ConnEvent::WriteError => ConnPhase::Closing,
            ConnEvent::CloseSignal => ConnPhase::Closing,
            _ => ConnPhase::Connected,
        },
        ConnPhase::Closing => match e {
            ConnEvent::TasksDone => ConnPhase::Closed,
            _ => ConnPhase::Closing,
        },
        ConnPhase::Closed => ConnPhase::Closed,
    }
}

/// A phase in which the connection counts as closed for observers: the
/// closed flag is raised on entry to `Closing` and never cleared.
pub open spec fn phase_closed(p: ConnPhase) -> bool {
    p is Closing || p is Closed
}

/// Advance the lifecycle by one event.
pub fn conn_step(p: ConnPhase, e: ConnEvent) -> (r: ConnPhase)
    ensures
        r == conn_step_spec(p, e),
{
    match p {
        ConnPhase::Created => match e {
            ConnEvent::Opened => ConnPhase::Connected,
            ConnEvent::CloseSignal => ConnPhase::Closed,
            _ => ConnPhase::Created,
        },
        ConnPhase::Connected => match e {
            ConnEvent::ReadEof => ConnPhase::Closing,
            ConnEvent::ReadError => ConnPhase::Closing,
            ConnEvent::WriteError => ConnPhase::Closing,
            ConnEvent::CloseSignal => ConnPhase::Closing,
            _ => ConnPhase::Connected,
        },
        ConnPhase::Closing => match e {
            ConnEvent::TasksDone => ConnPhase::Closed,
            _ => ConnPhase::Closing,
        },
        ConnPhase::Closed => ConnPhase::Closed,
    }
}

/// Once a connection counts as closed, no event reopens it.
pub proof fn lemma_closed_is_monotone(p: ConnPhase, e: ConnEvent)
    ensures
        phase_closed(p) ==> phase_closed(conn_step_spec(p, e)),
{
}

/// When the read task of a connected peer exits — end of stream or error —
/// the connection counts as closed, and the write task's next decision is
/// to stop.
pub proof fn lemma_read_exit_closes(p: ConnPhase, e: ConnEvent)
    requires
        p is Connected,
        e is ReadEof || e is ReadError,
    ensures
        phase_closed(conn_step_spec(p, e)),
        write_task_decision(conn_step_spec(p, e)) is Stop,
{
}

/// What the write task does next, given the connection's phase.
#[derive(Debug, Clone, Copy, PartialEq, Eq, Structural)]
pub enum WriteAction {
    /// Keep forwarding queued records to the stream.
    Forward,
    /// Finish the send stream and exit.
    Stop,
}

/// The write task forwards while the connection lives and stops as soon
/// as it counts as closed.
pub open spec fn write_task_decision(p: ConnPhase) -> WriteAction {
    if phase_closed(p) {
        WriteAction::Stop
    } else {
        WriteAction::Forward
    }
}

/// Decide the write task's next action.
pub fn write_step(p: ConnPhase) -> (r: WriteAction)
    ensures
        r == write_task_decision(p),
{
    match p {
        ConnPhase::Closing => WriteAction::Stop,
        ConnPhase::Closed => WriteAction::Stop,
        _ => WriteAction::Forward,
    }
}

/// The client's side of one connection: identity and liveness state. The
/// surrounding application owns the stream, the write queue and the close
/// channel.
#[derive(Debug)]
pub struct ClientConn {
    pub remote_addr: String,
    pub key: String,
    pub index: usize,
    pub connected: bool,
    pub local_port: String,
}

impl ClientConn {
    pub fn new(remote_addr: String, key: String, index: usize) -> (r: ClientConn)
        ensures
            r.remote_addr@ == remote_addr@,
            r.key@ == key@,
            r.index == index,
            !r.connected,
            r.local_port@ == Seq::<char>::empty(),
    {
        ClientConn { remote_addr, key, index, connected: false, local_port: String::new() }
    }

    pub fn is_connected(&self) -> (r: bool)
        ensures
            r == self.connected,
    {
        self.connected
    }

    pub fn set_connected(&mut self, value: bool)
        ensures
            *final(self) == (ClientConn { connected: value, ..*old(self) }),
    {
        self.connected = value;
    }

    pub fn get_conn_port(&self) -> (r: String)
        ensures
            r@ == self.local_port@,
    {
        self.local_port.clone()
    }

    pub fn set_conn_port(&mut self, port: String)
        ensures
            *final(self) == (ClientConn { local_port: port, ..*old(self) }),
    {
        self.local_port = port;
    }
}

/// The server's side of one connection: its cipher, derived from the
/// shared key, and the closed flag the routing layer reads. The flag only
/// ever moves to closed.
#[derive(Debug)]
pub struct ServerConn {
    pub key: String,
    pub cipher: Option<Aes128GcmCipher>,
    pub closed: bool,
}

impl ServerConn {
    /// A new server connection: encryption is enabled exactly when the key
    /// is nonempty.
    pub fn new(key: String) -> (r: ServerConn)
        ensures
            r.key@ == key@,
            !r.closed,
            key@.len() == 0 ==> r.cipher is None,
            key@.len() != 0 ==> (r.cipher matches Some(c) && c@ == derived_key_128(key@)
                && c.wf()),
    {
        if key.as_str().is_empty() {
            ServerConn { key, cipher: None, closed: false }
        } else {
            let cipher = match Aes128GcmCipher::new(key.as_str()) {
                Ok(c) => Some(c),
                Err(_) => None,
            };
            ServerConn { key, cipher, closed: false }
        }
    }

    pub fn is_closed(&self) -> (r: bool)
        ensures
            r == self.closed,
    {
        self.closed
    }

    /// Raise the closed flag; once raised it never falls, whatever value a
    /// caller passes.
    pub fn set_closed(&mut self, value: bool)
        ensures
            *final(self) == (ServerConn { closed: old(self).closed || value, ..*old(self) }),
    {
        self.closed = self.closed || value;
    }
}

/// Which connection carries the next packet: none when the pool is empty;
/// the single connection when one transport thread is configured;
/// otherwise the serial number modulo the thread count, dropped when that
/// slot never connected.
pub open spec fn pick_conn_spec(serial: i64, threads: usize, conns_len: usize) -> Option<usize> {
    if conns_len == 0 {
        None
    } else if threads == 1 {
        Some(0usize)
    } else {
        let next = (serial as int) % (threads as int);
        if next < conns_len {
            Some(next as usize)
        } else {
            None
        }
    }
}

/// Pick the connection for the next outbound packet.
pub fn pick_conn(serial: i64, threads: usize, conns_len: usize) -> (r: Option<usize>)
    requires
        serial >= 0,
        threads >= 1,
    ensures
        r == pick_conn_spec(serial, threads, conns_len),
        r matches Some(i) ==> i < conns_len,
{
    if conns_len == 0 {
        None
    } else if threads == 1 {
        Some(0)
    } else {
        let next = ((serial as u64) % (threads as u64)) as usize;
        if next < conns_len {
            Some(next)
        } else {
            None
        }
    }
}

/// Wrap one raw packet in an envelope, ready for the wire.
pub fn packet_envelope(pkt: &PacketIP) -> (r: Envelope)
    ensures
        r@.kind matches Some(t) && t matches crate::protocol::TypeView::Packet(p) && p.payload
            == pkt@,
{
    let payload = vstd::slice::slice_to_vec(pkt.as_bytes());
    Envelope { kind: Some(Type::Packet(MessagePacket { payload })) }
}

/// The characters of a CIDR string before the first slash: the bare IP.
pub open spec fn ip_part(s: Seq<char>) -> Seq<char>
    decreases s.len(),
{
    if s.len() == 0 {
        Seq::empty()
    } else if s[0] == '/' {
        Seq::empty()
    } else {
        seq![s[0]] + ip_part(s.skip(1))
    }
}

proof fn lemma_ip_part(s: Seq<char>, i: int)
    requires
        0 <= i <= s.len(),
        forall|j: int| 0 <= j < i ==> s[j] != '/',
        i < s.len() ==> s[i] == '/',
    ensures
        ip_part(s) == s.take(i),
    decreases s.len(),
{
    if s.len() == 0 {
        assert(s.take(i) =~= Seq::<char>::empty());
    } else if s[0] == '/' {
        assert(i == 0);
        assert(s.take(0) =~= Seq::<char>::empty());
    } else {
        assert(i >= 1);
        let t = s.skip(1);
        assert(forall|j: int| 0 <= j < i - 1 ==> t[j] == s[j + 1] && t[j] != '/');
        lemma_ip_part(t, i - 1);
        assert(s.take(i) =~= seq![s[0]] + t.take(i - 1));
    }
}

/// Strip the mask from a CIDR string, keeping what stands before the
/// first slash.
pub fn strip_cidr(s: &String) -> (r: String)
    ensures
        r@ == ip_part(s@),
{
    let st = s.as_str();
    let n = st.unicode_len();
    let mut i: usize = 0;
    while i < n
        invariant
            i <= n,
            n == st@.len(),
            st@ == s@,
            forall|j: int| 0 <= j < i ==> st@[j] != '/',
        decreases n - i,
    {
        if st.get_char(i) == '/' {
            let r = String::from_str(st.substring_char(0, i));
            proof {
                lemma_ip_part(s@, i as int);
                assert(r@ =~= s@.take(i as int));
            }
            return r;
        }
        i = i + 1;
    }
    let r = String::from_str(st.substring_char(0, n));
    proof {
        lemma_ip_part(s@, n as int);
        assert(r@ =~= s@.take(n as int));
    }
    r
}

/// Build the heartbeat ping the client announces itself with: the virtual
/// IP taken from the configured CIDR with the mask stripped, the local
/// address joined from that IP and the connection's port.
pub fn make_ping(timestamp: i64, cidr: &String, port: &String) -> (r: MessagePing)
    ensures
        r@.timestamp == timestamp,
        r@.ip == ip_part(cidr@),
        r@.local_addr == ip_part(cidr@) + seq![':'] + port@,
        r@.local_private_addr == "not_use"@,
        r@.dc == "client"@,
{
    let ip = strip_cidr(cidr);
    let mut local_addr = ip.clone();
    local_addr.append(":");
    local_addr.append(port.as_str());
    proof {
        reveal_strlit(":");
        assert(":"@ =~= seq![':']);
    }
    let r = MessagePing {
        timestamp,
        local_addr,
        local_private_addr: String::from_str("not_use"),
        ip,
        dc: String::from_str("client"),
    };
    r
}

} // verus!
