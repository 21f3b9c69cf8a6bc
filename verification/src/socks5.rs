//! SOCKS5 protocol logic: authentication records, credential checks, and
//! the byte-level parsers and reply builders the proxy's I/O loops drive.

use std::collections::HashMap;
use vstd::prelude::*;
use vstd::slice::slice_subrange;
use vstd::utf8::{decode_utf8, encode_utf8, valid_utf8};

use crate::hash::hex_digit;
use crate::packet::{digit_str, dec_chars, ipv4_chars, Ipv4Address};

verus! {

pub const SOCKS5_VERSION: u8 = 5;

pub const NO_AUTH: u8 = 0;

pub const NO_ACCEPTABLE: u8 = 255;

pub const USER_PASS_AUTH: u8 = 2;

pub const USER_AUTH_VERSION: u8 = 1;

pub const AUTH_SUCCESS: u8 = 0;

pub const AUTH_FAILURE: u8 = 1;

pub const CONNECT_COMMAND: u8 = 1;

pub const BIND_COMMAND: u8 = 2;

pub const ASSOCIATE_COMMAND: u8 = 3;

pub const IPV4_ADDRESS: u8 = 1;

pub const FQDN_ADDRESS: u8 = 3;

pub const IPV6_ADDRESS: u8 = 4;

pub const SUCCESS_REPLY: u8 = 0;

pub const COMMAND_NOT_SUPPORTED: u8 = 7;

#[derive(Debug, Clone, Copy, PartialEq, Eq, Structural)]
pub enum AuthError {
    /// User authentication failed.
    UserAuthFailed,
    /// No supported authentication mechanism.
    NoSupportedAuth,
    /// The peer sent fewer bytes than the message needs.
    Io,
    /// Unsupported auth version.
    UnsupportedVersion(u8),
}

#[derive(Debug, Clone, Copy, PartialEq, Eq, Structural)]
pub enum RequestError {
    /// Unrecognized address type.
    UnrecognizedAddrType,
    /// Unsupported command version.
    UnsupportedVersion(u8),
    /// The peer sent fewer bytes than the message needs.
    Io,
    /// Command not supported.
    CommandNotSupported(u8),
    /// Blocked by rules.
    BlockedByRules,
}

/// What `String::from_utf8_lossy` yields for a byte sequence: a pure
/// function of the bytes.
pub uninterp spec fn lossy_of(b: Seq<u8>) -> Seq<char>;

/// Decode bytes to text, replacing invalid sequences.
///
/// Relies on `String::from_utf8_lossy` of std: the result depends on the
/// bytes alone, and equals the exact decoding whenever they are valid
/// UTF-8.
#[verifier::external_body]
fn lossy_string(v: &[u8]) -> (r: String)
    ensures
        r@ == lossy_of(v@),
        valid_utf8(v@) ==> r@ == decode_utf8(v@),
{
    String::from_utf8_lossy(v).to_string()
}

/// Authentication context.
#[derive(Debug, Clone)]
pub struct AuthContext {
    pub method: u8,
    pub payload: HashMap<String, String>,
}

impl AuthContext {
    pub fn new(method: u8) -> (r: AuthContext)
        ensures
            r.method == method,
            r.payload@ == Map::<String, String>::empty(),
    {
        AuthContext { method, payload: HashMap::new() }
    }

    pub fn with_payload(method: u8, payload: HashMap<String, String>) -> (r: AuthContext)
        ensures
            r.method == method,
            r.payload == payload,
    {
        AuthContext { method, payload }
    }
}

/// Credential store trait, for callers to implement.
pub trait CredentialStore: Send + Sync {
    fn valid(&self, username: &str, password: &str) -> bool;
}

/// The password registered for a user, with a later registration
/// overriding an earlier one.
pub open spec fn cred_of(s: Seq<(String, String)>, u: Seq<char>) -> Option<Seq<char>>
    decreases s.len(),
{
    if s.len() == 0 {
        None
    } else if s.last().0@ == u {
        Some(s.last().1@)
    } else {
        cred_of(s.drop_last(), u)
    }
}

/// Simple in-memory credential store.
#[derive(Clone)]
pub struct StaticCredentials {
    credentials: Vec<(String, String)>,
}

impl View for StaticCredentials {
    type V = Seq<(String, String)>;

    closed spec fn view(&self) -> Seq<(String, String)> {
        self.credentials@
    }
}

impl StaticCredentials {
    pub fn new() -> (r: StaticCredentials)
        ensures
            r@.len() == 0,
    {
        StaticCredentials { credentials: Vec::new() }
    }

    /// Register a user's password, overriding any earlier one.
    pub fn add(&mut self, username: String, password: String)
        ensures
            forall|u: Seq<char>| #[trigger]
                cred_of(final(self)@, u) == if u == username@ {
                    Some(password@)
                } else {
                    cred_of(old(self)@, u)
                },
    {
        self.credentials.push((username, password));
        proof {
            assert(final(self)@.drop_last() =~= old(self)@);
        }
    }
}

impl Default for StaticCredentials {
    fn default() -> (r: StaticCredentials)
        ensures
            r@.len() == 0,
    {
        StaticCredentials { credentials: Vec::new() }
    }
}

impl CredentialStore for StaticCredentials {
    /// True exactly when this user is registered with this password.
    fn valid(&self, username: &str, password: &str) -> (r: bool)
        ensures
            r == (cred_of(self@, username@) == Some(password@)),
    {
        let user = String::from_str(username);
        let pass = String::from_str(password);
        let mut i: usize = self.credentials.len();
        proof {
            assert(self.credentials@.take(i as int) =~= self.credentials@);
        }
        while i > 0
            invariant
                i <= self.credentials@.len(),
                user@ == username@,
                pass@ == password@,
                cred_of(self@, username@) == cred_of(self.credentials@.take(i as int), username@),
            decreases i,
        {
            i = i - 1;
            proof {
                assert(self.credentials@.take(i + 1).drop_last() =~= self.credentials@.take(
                    i as int,
                ));
                assert(self.credentials@.take(i + 1).last() == self.credentials@[i as int]);
            }
            if self.credentials[i].0 == user {
                return self.credentials[i].1 == pass;
            }
        }
        proof {
            assert(self.credentials@.take(0) =~= Seq::<(String, String)>::empty());
        }
        false
    }
}

/// Authenticator: the negotiated mechanism.
#[derive(Clone)]
pub enum Authenticator {
    NoAuth,
    UserPass(StaticCredentials),
}

impl Authenticator {
    /// The method code this authenticator negotiates.
    pub fn get_code(&self) -> (r: u8)
        ensures
            self is NoAuth ==> r == NO_AUTH,
            self is UserPass ==> r == USER_PASS_AUTH,
    {
        match self {
            Authenticator::NoAuth => NO_AUTH,
            Authenticator::UserPass(_) => USER_PASS_AUTH,
        }
    }
}

/// The two bytes announcing the negotiated method.
pub fn auth_method_reply(method: u8) -> (r: Vec<u8>)
    ensures
        r@ == seq![SOCKS5_VERSION, method],
{
    let mut v: Vec<u8> = Vec::new();
    v.push(SOCKS5_VERSION);
    v.push(method);
    proof {
        assert(v@ =~= seq![SOCKS5_VERSION, method]);
    }
    v
}

/// The two bytes refusing every offered method.
pub fn no_acceptable_reply() -> (r: Vec<u8>)
    ensures
        r@ == seq![SOCKS5_VERSION, NO_ACCEPTABLE],
{
    auth_method_reply(NO_ACCEPTABLE)
}

/// The two bytes reporting the outcome of user-password authentication.
pub fn auth_status_reply(success: bool) -> (r: Vec<u8>)
    ensures
        success ==> r@ == seq![USER_AUTH_VERSION, AUTH_SUCCESS],
        !success ==> r@ == seq![USER_AUTH_VERSION, AUTH_FAILURE],
{
    let mut v: Vec<u8> = Vec::new();
    v.push(USER_AUTH_VERSION);
    if success {
        v.push(AUTH_SUCCESS);
        proof {
            assert(v@ =~= seq![USER_AUTH_VERSION, AUTH_SUCCESS]);
        }
    } else {
        v.push(AUTH_FAILURE);
        proof {
            assert(v@ =~= seq![USER_AUTH_VERSION, AUTH_FAILURE]);
        }
    }
    v
}

/// What parsing the client's method list yields: the offered methods and
/// how many bytes they took.
pub open spec fn methods_dec(b: Seq<u8>) -> Option<(Seq<u8>, int)> {
    if b.len() < 1 {
        None
    } else {
        let n = b[0] as int;
        if b.len() < 1 + n {
            None
        } else {
            Some((b.subrange(1, 1 + n), 1 + n))
        }
    }
}

/// Parse the client's offered authentication methods.
pub fn parse_methods(buf: &[u8]) -> (r: Result<(Vec<u8>, usize), AuthError>)
    ensures
        r matches Ok(mc) ==> methods_dec(buf@) == Some((mc.0@, mc.1 as int)) && mc.1
            <= buf@.len(),
        r is Err ==> methods_dec(buf@) is None,
        r matches Err(e) ==> e == AuthError::Io,
{
    if buf.len() < 1 {
        return Err(AuthError::Io);
    }
    let n = buf[0] as usize;
    if buf.len() < 1 + n {
        return Err(AuthError::Io);
    }
    let methods = slice_subrange(buf, 1, 1 + n);
    Ok((vstd::slice::slice_to_vec(methods), 1 + n))
}

/// What parsing a user-password message yields: the user, the password,
/// and how many bytes the message took; or why it is rejected.
pub open spec fn userpass_dec(b: Seq<u8>) -> Result<(Seq<char>, Seq<char>, int), AuthError> {
    if b.len() < 2 {
        Err(AuthError::Io)
    } else if b[0] != USER_AUTH_VERSION {
        Err(AuthError::UnsupportedVersion(b[0]))
    } else {
        let ulen = b[1] as int;
        if b.len() < 3 + ulen {
            Err(AuthError::Io)
        } else {
            let plen = b[2 + ulen] as int;
            if b.len() < 3 + ulen + plen {
                Err(AuthError::Io)
            } else {
                Ok(
                    (
                        lossy_of(b.subrange(2, 2 + ulen)),
                        lossy_of(b.subrange(3 + ulen, 3 + ulen + plen)),
                        3 + ulen + plen,
                    ),
                )
            }
        }
    }
}

/// Parse one user-password authentication message.
pub fn parse_userpass(buf: &[u8]) -> (r: Result<(String, String, usize), AuthError>)
    ensures
        r matches Ok(up) ==> userpass_dec(buf@) matches Ok(s) && up.0@ == s.0 && up.1@ == s.1
            && up.2 as int == s.2 && up.2 <= buf@.len(),
        r is Err <==> userpass_dec(buf@) is Err,
        r matches Err(e) ==> userpass_dec(buf@) matches Err(e2) && e == e2,
{
    if buf.len() < 2 {
        return Err(AuthError::Io);
    }
    if buf[0] != USER_AUTH_VERSION {
        return Err(AuthError::UnsupportedVersion(buf[0]));
    }
    let ulen = buf[1] as usize;
    if buf.len() < 3 + ulen {
        return Err(AuthError::Io);
    }
    let plen = buf[2 + ulen] as usize;
    if buf.len() < 3 + ulen + plen {
        return Err(AuthError::Io);
    }
    let user = lossy_string(slice_subrange(buf, 2, 2 + ulen));
    let pass = lossy_string(slice_subrange(buf, 3 + ulen, 3 + ulen + plen));
    Ok((user, pass, 3 + ulen + plen))
}

/// One address on the wire: a bare IP or a name to resolve.
#[derive(Debug, Clone, Copy, PartialEq, Eq)]
pub enum IpAddress {
    V4(Ipv4Address),
    V6([u8; 16]),
}

/// Address specification.
#[derive(Debug, Clone)]
pub struct AddrSpec {
    pub fqdn: Option<String>,
    pub ip: Option<IpAddress>,
    pub port: u16,
}

pub enum IpAddressV {
    V4(Ipv4Address),
    V6(Seq<u8>),
}

pub struct AddrSpecV {
    pub fqdn: Option<Seq<char>>,
    pub ip: Option<IpAddressV>,
    pub port: u16,
}

impl View for AddrSpec {
    type V = AddrSpecV;

    open spec fn view(&self) -> AddrSpecV {
        AddrSpecV {
            fqdn: match self.fqdn {
                None => None,
                Some(f) => Some(f@),
            },
            ip: match self.ip {
                None => None,
                Some(IpAddress::V4(a)) => Some(IpAddressV::V4(a)),
                Some(IpAddress::V6(oc)) => Some(IpAddressV::V6(oc@)),
            },
            port: self.port,
        }
    }
}

impl AddrSpec {
    pub fn new() -> (r: AddrSpec)
        ensures
            r@.fqdn is None,
            r@.ip is None,
            r@.port == 0,
    {
        AddrSpec { fqdn: None, ip: None, port: 0 }
    }
}

impl Default for AddrSpec {
    fn default() -> (r: AddrSpec)
        ensures
            r@.fqdn is None,
            r@.ip is None,
            r@.port == 0,
    {
        AddrSpec::new()
    }
}

/// What parsing an address specification yields: the address and how many
/// bytes it took, or why it is rejected.
pub open spec fn addr_dec(b: Seq<u8>) -> Result<(AddrSpecV, int), RequestError> {
    if b.len() < 1 {
        Err(RequestError::Io)
    } else if b[0] == IPV4_ADDRESS {
        if b.len() < 7 {
            Err(RequestError::Io)
        } else {
            Ok(
                (
                    AddrSpecV {
                        fqdn: None,
                        ip: Some(
                            IpAddressV::V4(
                                Ipv4Address { o0: b[1], o1: b[2], o2: b[3], o3: b[4] },
                            ),
                        ),
                        port: (b[5] as u16 * 256 + b[6] as u16) as u16,
                    },
                    7,
                ),
            )
        }
    } else if b[0] == FQDN_ADDRESS {
        if b.len() < 2 {
            Err(RequestError::Io)
        } else {
            let n = b[1] as int;
            if b.len() < 4 + n {
                Err(RequestError::Io)
            } else {
                Ok(
                    (
                        AddrSpecV {
                            fqdn: Some(lossy_of(b.subrange(2, 2 + n))),
                            ip: None,
                            port: (b[2 + n] as u16 * 256 + b[3 + n] as u16) as u16,
                        },
                        4 + n,
                    ),
                )
            }
        }
    } else if b[0] == IPV6_ADDRESS {
        if b.len() < 19 {
            Err(RequestError::Io)
        } else {
            Ok(
                (
                    AddrSpecV {
                        fqdn: None,
                        ip: Some(IpAddressV::V6(b.subrange(1, 17))),
                        port: (b[17] as u16 * 256 + b[18] as u16) as u16,
                    },
                    19,
                ),
            )
        }
    } else {
        Err(RequestError::UnrecognizedAddrType)
    }
}

/// Parse one address specification.
pub fn parse_addr_spec(buf: &[u8]) -> (r: Result<(AddrSpec, usize), RequestError>)
    ensures
        r matches Ok(ac) ==> addr_dec(buf@) matches Ok(s) && ac.0@ == s.0 && ac.1 as int == s.1
            && ac.1 <= buf@.len(),
        r is Err <==> addr_dec(buf@) is Err,
        r matches Err(e) ==> addr_dec(buf@) matches Err(e2) && e == e2,
{
    if buf.len() < 1 {
        return Err(RequestError::Io);
    }
    let t = buf[0];
    if t == IPV4_ADDRESS {
        if buf.len() < 7 {
            return Err(RequestError::Io);
        }
        let ip = Ipv4Address { o0: buf[1], o1: buf[2], o2: buf[3], o3: buf[4] };
        let port = buf[5] as u16 * 256 + buf[6] as u16;
        Ok((AddrSpec { fqdn: None, ip: Some(IpAddress::V4(ip)), port }, 7))
    } else if t == FQDN_ADDRESS {
        if buf.len() < 2 {
            return Err(RequestError::Io);
        }
        let n = buf[1] as usize;
        if buf.len() < 4 + n {
            return Err(RequestError::Io);
        }
        let fqdn = lossy_string(slice_subrange(buf, 2, 2 + n));
        let port = buf[2 + n] as u16 * 256 + buf[3 + n] as u16;
        Ok((AddrSpec { fqdn: Some(fqdn), ip: None, port }, 4 + n))
    } else if t == IPV6_ADDRESS {
        if buf.len() < 19 {
            return Err(RequestError::Io);
        }
        let octets = copy_16(slice_subrange(buf, 1, 17));
        let port = buf[17] as u16 * 256 + buf[18] as u16;
        Ok((AddrSpec { fqdn: None, ip: Some(IpAddress::V6(octets)), port }, 19))
    } else {
        Err(RequestError::UnrecognizedAddrType)
    }
}

/// Copy sixteen bytes into an array.
fn copy_16(s: &[u8]) -> (r: [u8; 16])
    requires
        s@.len() == 16,
    ensures
        r@ == s@,
{
    let mut out: [u8; 16] = [0u8; 16];
    let mut i: usize = 0;
    while i < 16
        invariant
            i <= 16,
            s@.len() == 16,
            forall|j: int| 0 <= j < i ==> out@[j] == s@[j],
        decreases 16 - i,
    {
        out[i] = s[i];
        i = i + 1;
    }
    proof {
        assert(out@ =~= s@);
    }
    out
}

/// SOCKS5 request.
#[derive(Debug)]
pub struct Request {
    pub version: u8,
    pub command: u8,
    pub auth_context: Option<AuthContext>,
    pub remote_addr: Option<AddrSpec>,
    pub dest_addr: AddrSpec,
}

/// What parsing a request yields: version check, command byte, reserved
/// byte, then the destination address.
pub open spec fn request_dec(b: Seq<u8>) -> Result<(u8, AddrSpecV, int), RequestError> {
    if b.len() < 3 {
        Err(RequestError::Io)
    } else if b[0] != SOCKS5_VERSION {
        Err(RequestError::UnsupportedVersion(b[0]))
    } else {
        match addr_dec(b.skip(3)) {
            Err(e) => Err(e),
            Ok((a, c)) => Ok((b[1], a, 3 + c)),
        }
    }
}

impl Request {
    /// Parse one request message from its bytes.
    pub fn new(buf: &[u8]) -> (r: Result<(Request, usize), RequestError>)
        ensures
            r matches Ok(rc) ==> request_dec(buf@) matches Ok(s) && rc.0.version
                == SOCKS5_VERSION && rc.0.command == s.0 && rc.0.dest_addr@ == s.1
                && rc.0.auth_context is None && rc.0.remote_addr is None && rc.1 as int == s.2
                && rc.1 <= buf@.len(),
            r is Err <==> request_dec(buf@) is Err,
            r matches Err(e) ==> request_dec(buf@) matches Err(e2) && e == e2,
    {
        if buf.len() < 3 {
            return Err(RequestError::Io);
        }
        if buf[0] != SOCKS5_VERSION {
            return Err(RequestError::UnsupportedVersion(buf[0]));
        }
        let rest = slice_subrange(buf, 3, buf.len());
        proof {
            assert(rest@ =~= buf@.skip(3));
        }
        match parse_addr_spec(rest) {
            Err(e) => Err(e),
            Ok((dest_addr, c)) => Ok(
                (
                    Request {
                        version: SOCKS5_VERSION,
                        command: buf[1],
                        auth_context: None,
                        remote_addr: None,
                        dest_addr,
                    },
                    3 + c,
                ),
            ),
        }
    }
}

/// Rule set trait for allowing or denying requests, for callers to
/// implement.
pub trait RuleSet: Send + Sync {
    fn allow(&self, req: &Request) -> bool;
}

/// Permit all rule set.
pub struct PermitAll;

impl RuleSet for PermitAll {
    fn allow(&self, req: &Request) -> (r: bool)
        ensures
            r,
    {
        true
    }
}

/// The bytes of a reply: version, status, reserved, then the bound
/// address — the all-zero IPv4 address when none is given.
pub open spec fn reply_bytes(resp: u8, a: Option<AddrSpecV>) -> Seq<u8> {
    match a {
        None => seq![SOCKS5_VERSION, resp, 0u8, IPV4_ADDRESS, 0u8, 0u8, 0u8, 0u8, 0u8, 0u8],
        Some(v) => match v.fqdn {
            Some(f) => seq![SOCKS5_VERSION, resp, 0u8, FQDN_ADDRESS] + seq![
                encode_utf8(f).len() as u8,
            ] + encode_utf8(f) + seq![(v.port / 256) as u8, (v.port % 256) as u8],
            None => match v.ip {
                Some(IpAddressV::V4(ip)) => seq![SOCKS5_VERSION, resp, 0u8, IPV4_ADDRESS]
                    + seq![ip.o0, ip.o1, ip.o2, ip.o3] + seq![
                    (v.port / 256) as u8,
                    (v.port % 256) as u8,
                ],
                Some(IpAddressV::V6(oc)) => seq![SOCKS5_VERSION, resp, 0u8, IPV6_ADDRESS] + oc
                    + seq![(v.port / 256) as u8, (v.port % 256) as u8],
                None => seq![
                    SOCKS5_VERSION,
                    resp,
                    0u8,
                    IPV4_ADDRESS,
                    0u8,
                    0u8,
                    0u8,
                    0u8,
                    0u8,
                    0u8,
                ],
            },
        },
    }
}

/// Build one reply message.
pub fn build_reply(resp: u8, addr: Option<&AddrSpec>) -> (r: Vec<u8>)
    requires
        addr matches Some(a) ==> (a@.fqdn matches Some(f) ==> encode_utf8(f).len() <= 255),
    ensures
        r@ == reply_bytes(
            resp,
            match addr {
                None => None,
                Some(a) => Some(a@),
            },
        ),
{
    let mut v: Vec<u8> = Vec::new();
    v.push(SOCKS5_VERSION);
    v.push(resp);
    v.push(0);
    match addr {
        None => {
            v.push(IPV4_ADDRESS);
            v.push(0);
            v.push(0);
            v.push(0);
            v.push(0);
            v.push(0);
            v.push(0);
            proof {
                assert(v@ =~= reply_bytes(resp, None));
            }
        },
        Some(a) => {
            match &a.fqdn {
                Some(f) => {
                    let fb = f.as_str().as_bytes();
                    v.push(FQDN_ADDRESS);
                    v.push(fb.len() as u8);
                    v.extend_from_slice(fb);
                    v.push((a.port / 256) as u8);
                    v.push((a.port % 256) as u8);
                    proof {
                        assert(v@ =~= reply_bytes(resp, Some(a@)));
                    }
                },
                None => {
                    match &a.ip {
                        Some(IpAddress::V4(ip)) => {
                            v.push(IPV4_ADDRESS);
                            v.push(ip.o0);
                            v.push(ip.o1);
                            v.push(ip.o2);
                            v.push(ip.o3);
                            v.push((a.port / 256) as u8);
                            v.push((a.port % 256) as u8);
                            proof {
                                assert(v@ =~= reply_bytes(resp, Some(a@)));
                            }
                        },
                        Some(IpAddress::V6(oc)) => {
                            v.push(IPV6_ADDRESS);
                            v.extend_from_slice(oc.as_slice());
                            v.push((a.port / 256) as u8);
                            v.push((a.port % 256) as u8);
                            proof {
                                assert(v@ =~= reply_bytes(resp, Some(a@)));
                            }
                        },
                        None => {
                            v.push(IPV4_ADDRESS);
                            v.push(0);
                            v.push(0);
                            v.push(0);
                            v.push(0);
                            v.push(0);
                            v.push(0);
                            proof {
                                assert(v@ =~= reply_bytes(resp, Some(a@)));
                            }
                        },
                    }
                },
            }
        },
    }
    v
}

#[derive(Debug, Clone, PartialEq, Eq)]
pub enum ResolverError {
    /// Failed to resolve a hostname.
    ResolveFailed(String),
}

/// The decimal characters of a port number, without leading zeros.
pub open spec fn port_chars(n: u16) -> Seq<char> {
    if n < 100 {
        dec_chars(n as u8)
    } else if n < 1000 {
        seq![
            crate::packet::digit_char((n / 100) as u8),
            crate::packet::digit_char(((n / 10) % 10) as u8),
            crate::packet::digit_char((n % 10) as u8),
        ]
    } else if n < 10000 {
        seq![
            crate::packet::digit_char((n / 1000) as u8),
            crate::packet::digit_char(((n / 100) % 10) as u8),
            crate::packet::digit_char(((n / 10) % 10) as u8),
            crate::packet::digit_char((n % 10) as u8),
        ]
    } else {
        seq![
            crate::packet::digit_char((n / 10000) as u8),
            crate::packet::digit_char(((n / 1000) % 10) as u8),
            crate::packet::digit_char(((n / 100) % 10) as u8),
            crate::packet::digit_char(((n / 10) % 10) as u8),
            crate::packet::digit_char((n % 10) as u8),
        ]
    }
}

/// Append a port number's decimal characters to a string.
fn push_port(s: &mut String, n: u16)
    ensures
        final(s)@ == old(s)@ + port_chars(n),
{
    if n < 100 {
        if n < 10 {
            s.append(digit_str(n as u8));
        } else {
            s.append(digit_str((n / 10) as u8));
            s.append(digit_str((n % 10) as u8));
        }
        proof {
            assert(s@ =~= old(s)@ + port_chars(n));
        }
    } else if n < 1000 {
        s.append(digit_str((n / 100) as u8));
        s.append(digit_str(((n / 10) % 10) as u8));
        s.append(digit_str((n % 10) as u8));
        proof {
            assert(s@ =~= old(s)@ + port_chars(n));
        }
    } else if n < 10000 {
        s.append(digit_str((n / 1000) as u8));
        s.append(digit_str(((n / 100) % 10) as u8));
        s.append(digit_str(((n / 10) % 10) as u8));
        s.append(digit_str((n % 10) as u8));
        proof {
            assert(s@ =~= old(s)@ + port_chars(n));
        }
    } else {
        s.append(digit_str((n / 10000) as u8));
        s.append(digit_str(((n / 1000) % 10) as u8));
        s.append(digit_str(((n / 100) % 10) as u8));
        s.append(digit_str(((n / 10) % 10) as u8));
        s.append(digit_str((n % 10) as u8));
        proof {
            assert(s@ =~= old(s)@ + port_chars(n));
        }
    }
}

/// One hexadecimal digit as a string slice.
fn nibble_str(d: u8) -> (r: &'static str)
    requires
        d < 16,
    ensures
        r@ == seq![hex_digit(d)],
{
    if d < 10 {
        digit_str(d)
    } else {
        proof {
            reveal_strlit("a");
            reveal_strlit("b");
            reveal_strlit("c");
            reveal_strlit("d");
            reveal_strlit("e");
            reveal_strlit("f");
        }
        if d == 10 {
            proof {
                assert("a"@ =~= seq![hex_digit(10)]);
            }
            "a"
        } else if d == 11 {
            proof {
                assert("b"@ =~= seq![hex_digit(11)]);
            }
            "b"
        } else if d == 12 {
            proof {
                assert("c"@ =~= seq![hex_digit(12)]);
            }
            "c"
        } else if d == 13 {
            proof {
                assert("d"@ =~= seq![hex_digit(13)]);
            }
            "d"
        } else if d == 14 {
            proof {
                assert("e"@ =~= seq![hex_digit(14)]);
            }
            "e"
        } else {
            proof {
                assert("f"@ =~= seq![hex_digit(15)]);
            }
            "f"
        }
    }
}

/// The four hexadecimal characters of one 16-bit group.
pub open spec fn group_chars(hi: u8, lo: u8) -> Seq<char> {
    seq![hex_digit(hi / 16), hex_digit(hi % 16), hex_digit(lo / 16), hex_digit(lo % 16)]
}

/// Append one group's characters.
fn push_group(s: &mut String, hi: u8, lo: u8)
    ensures
        final(s)@ == old(s)@ + group_chars(hi, lo),
{
    s.append(nibble_str(hi / 16));
    s.append(nibble_str(hi % 16));
    s.append(nibble_str(lo / 16));
    s.append(nibble_str(lo % 16));
    proof {
        assert(s@ =~= old(s)@ + group_chars(hi, lo));
    }
}

/// The uncompressed colon-separated hexadecimal characters of a 16-byte
/// address.
pub open spec fn v6_chars(oc: Seq<u8>) -> Seq<char>
    recommends
        oc.len() == 16,
{
    group_chars(oc[0], oc[1]) + seq![':'] + group_chars(oc[2], oc[3]) + seq![':'] + group_chars(
        oc[4],
        oc[5],
    ) + seq![':'] + group_chars(oc[6], oc[7]) + seq![':'] + group_chars(oc[8], oc[9]) + seq![':']
        + group_chars(oc[10], oc[11]) + seq![':'] + group_chars(oc[12], oc[13]) + seq![':']
        + group_chars(oc[14], oc[15])
}

/// The textual form of an address specification, as a dial target: the IP
/// when one is held — IPv6 written uncompressed — else the name, else the
/// all-zero address; always with the port appended.
pub open spec fn address_chars(a: AddrSpecV) -> Seq<char> {
    match a.ip {
        Some(IpAddressV::V4(ip)) => ipv4_chars(ip) + seq![':'] + port_chars(a.port),
        Some(IpAddressV::V6(oc)) => v6_chars(oc) + seq![':'] + port_chars(a.port),
        None => match a.fqdn {
            Some(f) => f + seq![':'] + port_chars(a.port),
            None => ipv4_chars(Ipv4Address { o0: 0u8, o1: 0u8, o2: 0u8, o3: 0u8 }) + seq![':']
                + port_chars(a.port),
        },
    }
}

impl AddrSpec {
    /// The textual form of this address, for the outbound connection.
    #[verifier::rlimit(60)]
    pub fn address(&self) -> (r: String)
        ensures
            r@ == address_chars(self@),
    {
        proof {
            reveal_strlit(":");
            assert(":"@ =~= seq![':']);
        }
        let mut s = String::new();
        match &self.ip {
            Some(IpAddress::V4(ip)) => {
                let quad = ip.address_string();
                s.append(quad.as_str());
            },
            Some(IpAddress::V6(oc)) => {
                push_group(&mut s, oc[0], oc[1]);
                s.append(":");
                push_group(&mut s, oc[2], oc[3]);
                s.append(":");
                push_group(&mut s, oc[4], oc[5]);
                s.append(":");
                push_group(&mut s, oc[6], oc[7]);
                s.append(":");
                push_group(&mut s, oc[8], oc[9]);
                s.append(":");
                push_group(&mut s, oc[10], oc[11]);
                s.append(":");
                push_group(&mut s, oc[12], oc[13]);
                s.append(":");
                push_group(&mut s, oc[14], oc[15]);
                proof {
                    assert(s@ =~= v6_chars(self@.ip->Some_0->V6_0));
                }
            },
            None => {
                match &self.fqdn {
                    Some(f) => {
                        s.append(f.as_str());
                    },
                    None => {
                        let quad = (Ipv4Address { o0: 0, o1: 0, o2: 0, o3: 0 }).address_string();
                        s.append(quad.as_str());
                    },
                }
            },
        }
        s.append(":");
        push_port(&mut s, self.port);
        proof {
            assert(s@ =~= address_chars(self@));
        }
        s
    }
}

/// Whether one of the offered authentication methods is the one this
/// server negotiates.
pub fn method_supported(methods: &[u8], code: u8) -> (r: bool)
    ensures
        r == methods@.contains(code),
{
    let mut i: usize = 0;
    while i < methods.len()
        invariant
            i <= methods@.len(),
            forall|j: int| 0 <= j < i ==> methods@[j] != code,
        decreases methods@.len() - i,
    {
        if methods[i] == code {
            proof {
                assert(methods@[i as int] == code);
            }
            return true;
        }
        i = i + 1;
    }
    false
}

/// The outcome of a user-password exchange: the status reply to send
/// back, the authentication context on success, and how many bytes of the
/// client's message were consumed.
#[derive(Debug)]
pub struct AuthOutcome {
    pub reply: Vec<u8>,
    pub context: Option<AuthContext>,
    pub consumed: usize,
}

/// Decide a user-password authentication from the client's message: a
/// malformed message is rejected outright; otherwise the credentials are
/// checked, the matching status reply is built, and on success the context
/// carries the authenticated user under the `Username` key.
pub fn authenticate_userpass(creds: &StaticCredentials, buf: &[u8]) -> (r: Result<
    AuthOutcome,
    AuthError,
>)
    ensures
        r is Err <==> userpass_dec(buf@) is Err,
        r matches Err(e) ==> userpass_dec(buf@) matches Err(e2) && e == e2,
        r matches Ok(o) ==> (userpass_dec(buf@) matches Ok(u) && o.consumed as int == u.2 && (
        cred_of(creds@, u.0) == Some(u.1) ==> o.reply@ == seq![USER_AUTH_VERSION, AUTH_SUCCESS]
            && (o.context matches Some(c) && c.method == USER_PASS_AUTH)) && (cred_of(
            creds@,
            u.0,
        ) != Some(u.1) ==> o.reply@ == seq![USER_AUTH_VERSION, AUTH_FAILURE] && o.context
            is None)),
{
    let (user, pass, consumed) = match parse_userpass(buf) {
        Ok(x) => x,
        Err(e) => {
            return Err(e);
        },
    };
    if creds.valid(user.as_str(), pass.as_str()) {
        let mut payload: HashMap<String, String> = HashMap::new();
        payload.insert(String::from_str("Username"), user);
        let context = AuthContext::with_payload(USER_PASS_AUTH, payload);
        Ok(AuthOutcome { reply: auth_status_reply(true), context: Some(context), consumed })
    } else {
        Ok(AuthOutcome { reply: auth_status_reply(false), context: None, consumed })
    }
}

} // verus!
