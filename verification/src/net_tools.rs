//! Host-proxied networking: the `net_*` tools.
//!
//! A call goes through the steps of [`NetStep`]: it is decoded, its address is
//! parsed, the policy is asked, and what is left is one socket operation for the
//! host to perform. [`NetHost::finish`] turns its result into the reply.

use crate::base64_text;
use crate::base64_text::{decode_base64, encode_base64};
use crate::json;
use crate::json::{
    integer_value, object_value, set_member, signed_field, string_value, text_field,
    unsigned_field, unsigned_value, JsonData,
};
use crate::net_policy::{Address, Answers, Endpoint, Ip, ListenPorts, NetworkPolicy};
use crate::text;
use crate::text::{decimal_of, decimal_of_i32, owned};
use serde_json::Value;
use std::collections::HashMap;
use vstd::prelude::*;
use vstd::string::*;

verus! {

/// The address family of IPv4.
pub const AF_INET: i32 = 2;

/// The address family of IPv6.
pub const AF_INET6: i32 = 10;

/// The type of a stream socket.
pub const SOCK_STREAM: i32 = 1;

/// The type of a datagram socket.
pub const SOCK_DGRAM: i32 = 2;

/// The option level of sockets.
pub const SOL_SOCKET: i32 = 1;

/// The option level of TCP.
pub const IPPROTO_TCP: i32 = 6;

/// The option to bind to an address that is in use.
pub const SO_REUSEADDR: i32 = 2;

/// The option that is the type of a socket.
pub const SO_TYPE: i32 = 3;

/// The option to keep a connection alive.
pub const SO_KEEPALIVE: i32 = 9;

/// The option not to delay small packets.
pub const TCP_NODELAY: i32 = 1;

/// Cap for the bytes that one call receives.
pub const MAX_RECV: u64 = 65536;

/// How many bytes a call receives that does not say.
pub const DEFAULT_RECV: u64 = 4096;

// ---------------------------------------------------------------------------
// The socket table
// ---------------------------------------------------------------------------

/// The sockets that are open, by the descriptor that the guest knows them by, and
/// the type of each.
#[derive(Debug)]
pub struct SocketTable {
    pub sockets: HashMap<u64, i32>,
    pub next_id: u64,
}

impl View for SocketTable {
    type V = Map<u64, i32>;

    open spec fn view(&self) -> Map<u64, i32> {
        self.sockets@
    }
}

/// The error for a descriptor that is not open.
pub open spec fn bad_fd(fd: u64) -> Seq<char> {
    "bad_fd: "@ + text::decimal(fd as nat)
}

fn bad_fd_text(fd: u64) -> (r: String)
    ensures
        r@ == bad_fd(fd),
{
    let mut out = owned("bad_fd: ");
    out.append(decimal_of(fd).as_str());
    out
}

impl SocketTable {
    /// Every descriptor in use was given out, and none is 0.
    pub open spec fn wf(&self) -> bool {
        &&& self.next_id >= 1
        &&& forall|fd: u64| self@.dom().contains(fd) ==> 1 <= fd < self.next_id
    }

    /// A table without sockets.
    pub fn new() -> (r: SocketTable)
        ensures
            r.wf(),
            r@ == Map::<u64, i32>::empty(),
            r.next_id == 1,
    {
        SocketTable { sockets: HashMap::new(), next_id: 1 }
    }

    /// Adds a socket of this type, under a descriptor that was never used before.
    pub fn insert(&mut self, sock_type: i32) -> (r: u64)
        requires
            old(self).wf(),
            old(self).next_id < u64::MAX,
        ensures
            final(self).wf(),
            r == old(self).next_id,
            !old(self)@.dom().contains(r),
            final(self)@ == old(self)@.insert(r, sock_type),
            final(self).next_id == old(self).next_id + 1,
    {
        broadcast use vstd::std_specs::hash::group_hash_axioms;

        let id: u64 = self.next_id;
        self.next_id = self.next_id + 1;
        self.sockets.insert(id, sock_type);
        assert forall|fd: u64| self@.dom().contains(fd) implies 1 <= fd < self.next_id by {
            assert(fd == id || old(self)@.dom().contains(fd));
        }
        id
    }

    /// The type of the socket under `fd`.
    pub fn get_sock_type(&self, fd: u64) -> (r: Result<i32, String>)
        ensures
            match r {
                Ok(t) => self@.dom().contains(fd) && t == self@[fd],
                Err(m) => !self@.dom().contains(fd) && m@ == bad_fd(fd),
            },
    {
        broadcast use vstd::std_specs::hash::group_hash_axioms;

        match self.sockets.get(&fd) {
            Some(t) => Ok(*t),
            None => Err(bad_fd_text(fd)),
        }
    }

    /// Takes the socket under `fd` out of the table.
    pub fn remove(&mut self, fd: u64) -> (r: Result<(), String>)
        requires
            old(self).wf(),
        ensures
            final(self).wf(),
            final(self).next_id == old(self).next_id,
            final(self)@ == old(self)@.remove(fd),
            match r {
                Ok(_) => old(self)@.dom().contains(fd),
                Err(m) => !old(self)@.dom().contains(fd) && m@ == bad_fd(fd),
            },
    {
        broadcast use vstd::std_specs::hash::group_hash_axioms;

        let taken = self.sockets.remove(&fd);
        assert forall|k: u64| self@.dom().contains(k) implies 1 <= k < self.next_id by {
            assert(old(self)@.dom().contains(k));
        }
        match taken {
            Some(_) => Ok(()),
            None => Err(bad_fd_text(fd)),
        }
    }
}

// ---------------------------------------------------------------------------
// Tools and calls
// ---------------------------------------------------------------------------

/// The networking tools.
#[derive(Debug, Clone, Copy, PartialEq, Eq, Structural)]
pub enum NetTool {
    Socket,
    Connect,
    Bind,
    Listen,
    Accept,
    Send,
    SendTo,
    Recv,
    RecvFrom,
    Close,
    Shutdown,
    SetSockOpt,
    GetSockOpt,
    GetPeerName,
    GetSockName,
}

impl NetTool {
    /// The name that the guest calls the tool by.
    pub open spec fn called(self) -> Seq<char> {
        match self {
            NetTool::Socket => "net_socket"@,
            NetTool::Connect => "net_connect"@,
            NetTool::Bind => "net_bind"@,
            NetTool::Listen => "net_listen"@,
            NetTool::Accept => "net_accept"@,
            NetTool::Send => "net_send"@,
            NetTool::SendTo => "net_sendto"@,
            NetTool::Recv => "net_recv"@,
            NetTool::RecvFrom => "net_recvfrom"@,
            NetTool::Close => "net_close"@,
            NetTool::Shutdown => "net_shutdown"@,
            NetTool::SetSockOpt => "net_setsockopt"@,
            NetTool::GetSockOpt => "net_getsockopt"@,
            NetTool::GetPeerName => "net_getpeername"@,
            NetTool::GetSockName => "net_getsockname"@,
        }
    }

    /// The name that the guest calls the tool by.
    pub fn name(self) -> (r: &'static str)
        ensures
            r@ == self.called(),
    {
        match self {
            NetTool::Socket => "net_socket",
            NetTool::Connect => "net_connect",
            NetTool::Bind => "net_bind",
            NetTool::Listen => "net_listen",
            NetTool::Accept => "net_accept",
            NetTool::Send => "net_send",
            NetTool::SendTo => "net_sendto",
            NetTool::Recv => "net_recv",
            NetTool::RecvFrom => "net_recvfrom",
            NetTool::Close => "net_close",
            NetTool::Shutdown => "net_shutdown",
            NetTool::SetSockOpt => "net_setsockopt",
            NetTool::GetSockOpt => "net_getsockopt",
            NetTool::GetPeerName => "net_getpeername",
            NetTool::GetSockName => "net_getsockname",
        }
    }
}

/// A decoded call of a networking tool.
#[derive(Debug, PartialEq, Eq)]
pub enum NetCall {
    Socket { family: i32, sock_type: i32, protocol: i32 },
    Connect { fd: u64, addr: String, port: u16 },
    Bind { fd: u64, addr: String, port: u16 },
    Listen { fd: u64, backlog: i32 },
    Accept { fd: u64 },
    Send { fd: u64, data: Vec<u8> },
    SendTo { fd: u64, data: Vec<u8>, addr: String, port: u16 },
    Recv { fd: u64, len: u64 },
    RecvFrom { fd: u64, len: u64 },
    Close { fd: u64 },
    Shutdown { fd: u64, how: i32 },
    SetSockOpt { fd: u64, level: i32, optname: i32, value: i32 },
    GetSockOpt { fd: u64, level: i32, optname: i32 },
    GetPeerName { fd: u64 },
    GetSockName { fd: u64 },
}

/// The integer in the member `key`, cut to 32 bits, or else `default`.
pub open spec fn i32_member(d: JsonData, key: Seq<char>, default: i64) -> i32 {
    json::signed_member(d, key, default) as i32
}

/// The port in the arguments, cut to 16 bits, or else 0.
pub open spec fn port_member(d: JsonData) -> u16 {
    match json::unsigned_member(d, "port"@) {
        Some(n) => n as u16,
        None => 0,
    }
}

/// How many bytes to receive.
pub open spec fn len_member(d: JsonData) -> u64 {
    let n = match json::unsigned_member(d, "len"@) {
        Some(n) => n,
        None => DEFAULT_RECV,
    };
    if n < MAX_RECV {
        n
    } else {
        MAX_RECV
    }
}

/// The data in the arguments is `b`, or `r` is the error that says why not.
pub open spec fn data_is<T>(d: JsonData, r: Result<T, String>, b: Seq<u8>) -> bool {
    match json::text_member(d, "data"@) {
        None => json::fails(r, "missing 'data'"@),
        Some(t) => match base64_text::base64_decoded(t) {
            Err(m) => json::fails(r, "base64 decode: "@ + m),
            Ok(bytes) => r is Ok && b == bytes,
        },
    }
}

/// `r` is what decoding the arguments `d` of a call of `tool` gives.
pub open spec fn decodes_to(tool: NetTool, d: JsonData, r: Result<NetCall, String>) -> bool {
    if tool == NetTool::Socket {
        r == Ok::<NetCall, String>(
            NetCall::Socket {
                family: i32_member(d, "family"@, AF_INET as i64),
                sock_type: i32_member(d, "type"@, SOCK_STREAM as i64),
                protocol: i32_member(d, "protocol"@, 0),
            },
        )
    } else {
        match json::unsigned_member(d, "fd"@) {
            None => json::fails(r, "missing 'fd'"@),
            Some(fd) => decodes_with_fd(tool, d, fd, r),
        }
    }
}

/// `r` is what decoding gives, for a call on the socket `fd`.
pub open spec fn decodes_with_fd(
    tool: NetTool,
    d: JsonData,
    fd: u64,
    r: Result<NetCall, String>,
) -> bool {
    match tool {
        NetTool::Socket => false,
        NetTool::Connect => match json::text_member(d, "addr"@) {
            None => json::fails(r, "missing 'addr'"@),
            Some(a) => r matches Ok(NetCall::Connect { fd: f, addr, port }) && f == fd && addr@ == a
                && port == port_member(d),
        },
        NetTool::Bind => match json::text_member(d, "addr"@) {
            None => json::fails(r, "missing 'addr'"@),
            Some(a) => r matches Ok(NetCall::Bind { fd: f, addr, port }) && f == fd && addr@ == a
                && port == port_member(d),
        },
        NetTool::Listen => r == Ok::<NetCall, String>(
            NetCall::Listen { fd, backlog: i32_member(d, "backlog"@, 128) },
        ),
        NetTool::Accept => r == Ok::<NetCall, String>(NetCall::Accept { fd }),
        NetTool::Send => match r {
            Ok(NetCall::Send { fd: f, data }) => f == fd && data_is(d, r, data@),
            Ok(_) => false,
            Err(_) => data_is(d, r, Seq::empty()),
        },
        NetTool::SendTo => match r {
            Ok(NetCall::SendTo { fd: f, data, addr, port }) => {
                &&& f == fd
                &&& data_is(d, r, data@)
                &&& json::text_member(d, "addr"@) == Some(addr@)
                &&& port == port_member(d)
            },
            Ok(_) => false,
            Err(_) => if json::text_member(d, "data"@) matches Some(t)
                && base64_text::base64_decoded(t) is Ok {
                json::text_member(d, "addr"@) is None && json::fails(r, "missing 'addr'"@)
            } else {
                data_is(d, r, Seq::empty())
            },
        },
        NetTool::Recv => r == Ok::<NetCall, String>(NetCall::Recv { fd, len: len_member(d) }),
        NetTool::RecvFrom => r == Ok::<NetCall, String>(
            NetCall::RecvFrom { fd, len: len_member(d) },
        ),
        NetTool::Close => r == Ok::<NetCall, String>(NetCall::Close { fd }),
        NetTool::Shutdown => r == Ok::<NetCall, String>(
            NetCall::Shutdown { fd, how: i32_member(d, "how"@, 2) },
        ),
        NetTool::SetSockOpt => r == Ok::<NetCall, String>(
            NetCall::SetSockOpt {
                fd,
                level: i32_member(d, "level"@, 0),
                optname: i32_member(d, "optname"@, 0),
                value: i32_member(d, "value"@, 0),
            },
        ),
        NetTool::GetSockOpt => r == Ok::<NetCall, String>(
            NetCall::GetSockOpt {
                fd,
                level: i32_member(d, "level"@, 0),
                optname: i32_member(d, "optname"@, 0),
            },
        ),
        NetTool::GetPeerName => r == Ok::<NetCall, String>(NetCall::GetPeerName { fd }),
        NetTool::GetSockName => r == Ok::<NetCall, String>(NetCall::GetSockName { fd }),
    }
}

fn i32_field(args: &Value, key: &str, default: i64) -> (r: i32)
    ensures
        r == i32_member(json::data(*args), key@, default),
{
    let n: i64 = signed_field(args, key, default);
    #[verifier::truncate]
    (n as i32)
}

fn port_field(args: &Value) -> (r: u16)
    ensures
        r == port_member(json::data(*args)),
{
    match unsigned_field(args, "port") {
        Some(n) => #[verifier::truncate]
        (n as u16),
        None => 0,
    }
}

fn len_field(args: &Value) -> (r: u64)
    ensures
        r == len_member(json::data(*args)),
{
    let n: u64 = match unsigned_field(args, "len") {
        Some(n) => n,
        None => DEFAULT_RECV,
    };
    if n < MAX_RECV {
        n
    } else {
        MAX_RECV
    }
}

fn data_field(args: &Value) -> (r: Result<Vec<u8>, String>)
    ensures
        match r {
            Ok(b) => data_is(json::data(*args), r, b@),
            Err(_) => data_is(json::data(*args), r, Seq::empty()),
        },
{
    match text_field(args, "data") {
        None => Err(owned("missing 'data'")),
        Some(t) => match decode_base64(t) {
            Ok(b) => Ok(b),
            Err(m) => {
                let mut out = owned("base64 decode: ");
                out.append(m.as_str());
                Err(out)
            },
        },
    }
}

fn addr_field(args: &Value) -> (r: Result<String, String>)
    ensures
        match r {
            Ok(a) => json::text_member(json::data(*args), "addr"@) == Some(a@),
            Err(m) => json::text_member(json::data(*args), "addr"@) is None && m@
                == "missing 'addr'"@,
        },
{
    match text_field(args, "addr") {
        None => Err(owned("missing 'addr'")),
        Some(a) => Ok(owned(a)),
    }
}

/// Decode the arguments of a call of `tool`.
pub fn decode_net(tool: NetTool, args: &Value) -> (r: Result<NetCall, String>)
    ensures
        decodes_to(tool, json::data(*args), r),
{
    if let NetTool::Socket = tool {
        return Ok(
            NetCall::Socket {
                family: i32_field(args, "family", AF_INET as i64),
                sock_type: i32_field(args, "type", SOCK_STREAM as i64),
                protocol: i32_field(args, "protocol", 0),
            },
        );
    }
    let fd: u64 = match unsigned_field(args, "fd") {
        Some(fd) => fd,
        None => {
            return Err(owned("missing 'fd'"));
        },
    };
    match tool {
        NetTool::Socket => Err(String::new()),
        NetTool::Connect => match addr_field(args) {
            Ok(addr) => Ok(NetCall::Connect { fd, addr, port: port_field(args) }),
            Err(m) => Err(m),
        },
        NetTool::Bind => match addr_field(args) {
            Ok(addr) => Ok(NetCall::Bind { fd, addr, port: port_field(args) }),
            Err(m) => Err(m),
        },
        NetTool::Listen => Ok(NetCall::Listen { fd, backlog: i32_field(args, "backlog", 128) }),
        NetTool::Accept => Ok(NetCall::Accept { fd }),
        NetTool::Send => match data_field(args) {
            Ok(data) => Ok(NetCall::Send { fd, data }),
            Err(m) => Err(m),
        },
        NetTool::SendTo => match data_field(args) {
            Ok(data) => match addr_field(args) {
                Ok(addr) => Ok(NetCall::SendTo { fd, data, addr, port: port_field(args) }),
                Err(m) => Err(m),
            },
            Err(m) => Err(m),
        },
        NetTool::Recv => Ok(NetCall::Recv { fd, len: len_field(args) }),
        NetTool::RecvFrom => Ok(NetCall::RecvFrom { fd, len: len_field(args) }),
        NetTool::Close => Ok(NetCall::Close { fd }),
        NetTool::Shutdown => Ok(NetCall::Shutdown { fd, how: i32_field(args, "how", 2) }),
        NetTool::SetSockOpt => Ok(
            NetCall::SetSockOpt {
                fd,
                level: i32_field(args, "level", 0),
                optname: i32_field(args, "optname", 0),
                value: i32_field(args, "value", 0),
            },
        ),
        NetTool::GetSockOpt => Ok(
            NetCall::GetSockOpt {
                fd,
                level: i32_field(args, "level", 0),
                optname: i32_field(args, "optname", 0),
            },
        ),
        NetTool::GetPeerName => Ok(NetCall::GetPeerName { fd }),
        NetTool::GetSockName => Ok(NetCall::GetSockName { fd }),
    }
}

// ---------------------------------------------------------------------------
// Steps
// ---------------------------------------------------------------------------

/// A socket option that is on or off.
#[derive(Debug, Clone, Copy, PartialEq, Eq, Structural)]
pub enum SocketFlag {
    ReuseAddress,
    KeepAlive,
    NoDelay,
}

/// Which half of a connection to shut down.
#[derive(Debug, Clone, Copy, PartialEq, Eq, Structural)]
pub enum ShutdownHalf {
    Read,
    Write,
    Both,
}

/// A socket operation for the host to perform.
#[derive(Debug, PartialEq, Eq)]
pub enum NetOp {
    /// Open a socket: IPv6 or IPv4, of this type, with this protocol unless it
    /// is left to the host.
    Open { v6: bool, sock_type: i32, protocol: Option<i32> },
    Connect { fd: u64, to: Endpoint },
    Bind { fd: u64, at: Endpoint },
    Listen { fd: u64, backlog: i32 },
    /// Accept a connection; the new socket is of this type.
    Accept { fd: u64, sock_type: i32 },
    Send { fd: u64, data: Vec<u8> },
    SendTo { fd: u64, data: Vec<u8>, to: Endpoint },
    Recv { fd: u64, len: u64 },
    RecvFrom { fd: u64, len: u64 },
    /// Close a socket, which is no longer in the table.
    Close { fd: u64 },
    Shutdown { fd: u64, half: ShutdownHalf },
    SetFlag { fd: u64, flag: SocketFlag, on: bool },
    GetFlag { fd: u64, flag: SocketFlag },
    PeerName { fd: u64 },
    SockName { fd: u64 },
}

/// What a call needs next.
#[derive(Debug)]
pub enum NetStep {
    /// Nothing: this is the result of the call.
    Reply(Result<Value, String>),
    /// The address in the call is to be parsed: see `NetHost::with_address`.
    Parse(NetCall),
    /// The policy is to be asked about this endpoint: see `NetHost::with_answers`.
    Check(NetCall, Endpoint),
    /// The host is to perform this operation: see `NetHost::finish`.
    Act(NetOp),
}

/// `step` is the result `r`.
pub open spec fn replies(step: NetStep, r: Result<JsonData, Seq<char>>) -> bool {
    step matches NetStep::Reply(x) && json::result_data(x) == r
}

/// `step` is the operation `op`, if `fd` is open, and else the error that it is
/// not.
pub open spec fn acts_on(step: NetStep, table: Map<u64, i32>, fd: u64, op: NetOp) -> bool {
    if table.dom().contains(fd) {
        step == NetStep::Act(op)
    } else {
        replies(step, Err(bad_fd(fd)))
    }
}

/// Which half of a connection the number `how` stands for.
pub open spec fn half_of(how: i32) -> ShutdownHalf {
    if how == 0 {
        ShutdownHalf::Read
    } else if how == 1 {
        ShutdownHalf::Write
    } else {
        ShutdownHalf::Both
    }
}

/// The option that can be set, if it is one; others are silently accepted.
pub open spec fn settable(level: i32, optname: i32) -> Option<SocketFlag> {
    if level == SOL_SOCKET && optname == SO_REUSEADDR {
        Some(SocketFlag::ReuseAddress)
    } else if level == SOL_SOCKET && optname == SO_KEEPALIVE {
        Some(SocketFlag::KeepAlive)
    } else if level == IPPROTO_TCP && optname == TCP_NODELAY {
        Some(SocketFlag::NoDelay)
    } else {
        None
    }
}

/// The option that can be read from the socket, if it is one.
pub open spec fn readable(level: i32, optname: i32) -> Option<SocketFlag> {
    if level == SOL_SOCKET && optname == SO_REUSEADDR {
        Some(SocketFlag::ReuseAddress)
    } else if level == IPPROTO_TCP && optname == TCP_NODELAY {
        Some(SocketFlag::NoDelay)
    } else {
        None
    }
}

/// `step` is the first step of a decoded call, with the table as it is before.
pub open spec fn begins(call: NetCall, table: Map<u64, i32>, step: NetStep) -> bool {
    match call {
        NetCall::Socket { family, sock_type, protocol } => if family != AF_INET && family
            != AF_INET6 {
            replies(step, Err("InvalidInput: unsupported family "@ + text::decimal_int(family as int)))
        } else if sock_type != SOCK_STREAM && sock_type != SOCK_DGRAM {
            replies(step, Err("InvalidInput: unsupported type "@ + text::decimal_int(sock_type as int)))
        } else {
            step == NetStep::Act(
                NetOp::Open {
                    v6: family == AF_INET6,
                    sock_type,
                    protocol: if protocol == 0 {
                        None
                    } else {
                        Some(protocol)
                    },
                },
            )
        },
        NetCall::Connect { .. } => step == NetStep::Parse(call),
        NetCall::Bind { .. } => step == NetStep::Parse(call),
        NetCall::SendTo { .. } => step == NetStep::Parse(call),
        NetCall::Listen { fd, backlog } => acts_on(step, table, fd, NetOp::Listen { fd, backlog }),
        NetCall::Accept { fd } => acts_on(
            step,
            table,
            fd,
            NetOp::Accept { fd, sock_type: table[fd] },
        ),
        NetCall::Send { fd, data } => acts_on(step, table, fd, NetOp::Send { fd, data }),
        NetCall::Recv { fd, len } => acts_on(step, table, fd, NetOp::Recv { fd, len }),
        NetCall::RecvFrom { fd, len } => acts_on(step, table, fd, NetOp::RecvFrom { fd, len }),
        NetCall::Close { fd } => acts_on(step, table, fd, NetOp::Close { fd }),
        NetCall::Shutdown { fd, how } => acts_on(
            step,
            table,
            fd,
            NetOp::Shutdown { fd, half: half_of(how) },
        ),
        NetCall::SetSockOpt { fd, level, optname, value } => match settable(level, optname) {
            Some(flag) => acts_on(step, table, fd, NetOp::SetFlag { fd, flag, on: value != 0 }),
            None => replies(
                step,
                if table.dom().contains(fd) {
                    Ok(json::no_members())
                } else {
                    Err(bad_fd(fd))
                },
            ),
        },
        NetCall::GetSockOpt { fd, level, optname } => match readable(level, optname) {
            Some(flag) => acts_on(step, table, fd, NetOp::GetFlag { fd, flag }),
            None => replies(
                step,
                if !table.dom().contains(fd) {
                    Err(bad_fd(fd))
                } else if level == SOL_SOCKET && optname == SO_TYPE {
                    Ok(json::one_member("value"@, json::integer(table[fd] as i64)))
                } else {
                    Ok(json::one_member("value"@, json::integer(0)))
                },
            ),
        },
        NetCall::GetPeerName { fd } => acts_on(step, table, fd, NetOp::PeerName { fd }),
        NetCall::GetSockName { fd } => acts_on(step, table, fd, NetOp::SockName { fd }),
    }
}

/// The table after the first step of a call: closing takes the socket out.
pub open spec fn table_after(call: NetCall, table: Map<u64, i32>) -> Map<u64, i32> {
    match call {
        NetCall::Close { fd } => table.remove(fd),
        _ => table,
    }
}

impl NetCall {
    /// The call has an address, which is to be parsed.
    pub open spec fn has_address(self) -> bool {
        self is Connect || self is Bind || self is SendTo
    }

    /// The address text in the call.
    pub fn address_text(&self) -> (r: &str)
        requires
            self.has_address(),
        ensures
            match self {
                NetCall::Connect { addr, .. } => r@ == addr@,
                NetCall::Bind { addr, .. } => r@ == addr@,
                NetCall::SendTo { addr, .. } => r@ == addr@,
                _ => false,
            },
    {
        match self {
            NetCall::Connect { addr, .. } => addr.as_str(),
            NetCall::Bind { addr, .. } => addr.as_str(),
            NetCall::SendTo { addr, .. } => addr.as_str(),
            _ => "",
        }
    }
}

/// `step` is the step after the address of `call` was parsed.
pub open spec fn goes_on(
    call: NetCall,
    ports: Option<ListenPorts>,
    table: Map<u64, i32>,
    parsed: Result<Address, String>,
    step: NetStep,
) -> bool {
    match (call, parsed) {
        (_, Err(m)) => replies(step, Err("bad addr: "@ + m@)),
        (NetCall::Connect { port, .. }, Ok(address)) => step == NetStep::Check(
            call,
            Endpoint { address, port },
        ),
        (NetCall::SendTo { port, .. }, Ok(address)) => step == NetStep::Check(
            call,
            Endpoint { address, port },
        ),
        (NetCall::Bind { fd, port, .. }, Ok(address)) => match ports {
            None => replies(step, Err("Permission denied: no --port specified for bind"@)),
            Some(list) => if list.ports@.contains(port) {
                acts_on(
                    step,
                    table,
                    fd,
                    NetOp::Bind { fd, at: (Endpoint { address, port }) },
                )
            } else {
                step matches NetStep::Reply(Err(m)) && list.denies(port, m@)
            },
        },
        _ => false,
    }
}

/// `step` is the step after the policy was asked about `to`.
pub open spec fn is_checked(
    call: NetCall,
    to: Endpoint,
    policy: NetworkPolicy,
    answers: Answers,
    resolvers: Seq<Ip>,
    table: Map<u64, i32>,
    step: NetStep,
) -> bool {
    if policy.permits(to, answers, resolvers) {
        match call {
            NetCall::Connect { fd, .. } => acts_on(step, table, fd, NetOp::Connect { fd, to }),
            NetCall::SendTo { fd, data, .. } => acts_on(
                step,
                table,
                fd,
                NetOp::SendTo { fd, data, to },
            ),
            _ => false,
        }
    } else {
        replies(step, Err("network policy denies connection to "@ + to.wording()))
    }
}

// ---------------------------------------------------------------------------
// The host side
// ---------------------------------------------------------------------------

/// What the networking tools of a sandbox work with: the policy, the ports that
/// can be bound to, and the sockets that are open.
#[derive(Debug)]
pub struct NetHost {
    pub policy: NetworkPolicy,
    pub ports: Option<ListenPorts>,
    pub table: SocketTable,
}

fn no_members_reply() -> (r: Result<Value, String>)
    ensures
        json::result_data(r) == Ok::<JsonData, Seq<char>>(json::no_members()),
{
    Ok(object_value())
}

fn integer_reply(key: &str, n: i64) -> (r: Result<Value, String>)
    ensures
        json::result_data(r) == Ok::<JsonData, Seq<char>>(json::one_member(key@, json::integer(n))),
{
    let mut v = object_value();
    set_member(&mut v, key, integer_value(n));
    Ok(v)
}

fn unsigned_reply(key: &str, n: u64) -> (r: Value)
    ensures
        json::data(r) == json::one_member(key@, JsonData::Unsigned(n)),
{
    let mut v = object_value();
    set_member(&mut v, key, unsigned_value(n));
    v
}

impl NetHost {
    /// A host without open sockets.
    pub fn new(policy: NetworkPolicy, ports: Option<ListenPorts>) -> (r: NetHost)
        ensures
            r.policy == policy,
            r.ports == ports,
            r.table.wf(),
            r.table@ == Map::<u64, i32>::empty(),
            r.table.next_id == 1,
    {
        NetHost { policy, ports, table: SocketTable::new() }
    }

    /// The operation, if its socket is open.
    fn act(&self, fd: u64, op: NetOp) -> (r: NetStep)
        ensures
            acts_on(r, self.table@, fd, op),
    {
        match self.table.get_sock_type(fd) {
            Ok(_) => NetStep::Act(op),
            Err(m) => NetStep::Reply(Err(m)),
        }
    }

    /// Begin with a decoded call.
    pub fn begin(&mut self, call: NetCall) -> (r: NetStep)
        requires
            old(self).table.wf(),
        ensures
            begins(call, old(self).table@, r),
            final(self).policy == old(self).policy,
            final(self).ports == old(self).ports,
            final(self).table.wf(),
            final(self).table.next_id == old(self).table.next_id,
            final(self).table@ == table_after(call, old(self).table@),
    {
        match call {
            NetCall::Socket { family, sock_type, protocol } => {
                if family != AF_INET && family != AF_INET6 {
                    let mut out = owned("InvalidInput: unsupported family ");
                    out.append(decimal_of_i32(family).as_str());
                    return NetStep::Reply(Err(out));
                }
                if sock_type != SOCK_STREAM && sock_type != SOCK_DGRAM {
                    let mut out = owned("InvalidInput: unsupported type ");
                    out.append(decimal_of_i32(sock_type).as_str());
                    return NetStep::Reply(Err(out));
                }
                let protocol: Option<i32> = if protocol == 0 {
                    None
                } else {
                    Some(protocol)
                };
                NetStep::Act(NetOp::Open { v6: family == AF_INET6, sock_type, protocol })
            },
            NetCall::Connect { fd, addr, port } => NetStep::Parse(
                NetCall::Connect { fd, addr, port },
            ),
            NetCall::Bind { fd, addr, port } => NetStep::Parse(NetCall::Bind { fd, addr, port }),
            NetCall::SendTo { fd, data, addr, port } => NetStep::Parse(
                NetCall::SendTo { fd, data, addr, port },
            ),
            NetCall::Listen { fd, backlog } => self.act(fd, NetOp::Listen { fd, backlog }),
            NetCall::Accept { fd } => match self.table.get_sock_type(fd) {
                Ok(sock_type) => NetStep::Act(NetOp::Accept { fd, sock_type }),
                Err(m) => NetStep::Reply(Err(m)),
            },
            NetCall::Send { fd, data } => self.act(fd, NetOp::Send { fd, data }),
            NetCall::Recv { fd, len } => self.act(fd, NetOp::Recv { fd, len }),
            NetCall::RecvFrom { fd, len } => self.act(fd, NetOp::RecvFrom { fd, len }),
            NetCall::Close { fd } => match self.table.remove(fd) {
                Ok(_) => NetStep::Act(NetOp::Close { fd }),
                Err(m) => NetStep::Reply(Err(m)),
            },
            NetCall::Shutdown { fd, how } => {
                let half = if how == 0 {
                    ShutdownHalf::Read
                } else if how == 1 {
                    ShutdownHalf::Write
                } else {
                    ShutdownHalf::Both
                };
                self.act(fd, NetOp::Shutdown { fd, half })
            },
            NetCall::SetSockOpt { fd, level, optname, value } => {
                let on = value != 0;
                if level == SOL_SOCKET && optname == SO_REUSEADDR {
                    self.act(fd, NetOp::SetFlag { fd, flag: SocketFlag::ReuseAddress, on })
                } else if level == SOL_SOCKET && optname == SO_KEEPALIVE {
                    self.act(fd, NetOp::SetFlag { fd, flag: SocketFlag::KeepAlive, on })
                } else if level == IPPROTO_TCP && optname == TCP_NODELAY {
                    self.act(fd, NetOp::SetFlag { fd, flag: SocketFlag::NoDelay, on })
                } else {
                    match self.table.get_sock_type(fd) {
                        Ok(_) => NetStep::Reply(no_members_reply()),
                        Err(m) => NetStep::Reply(Err(m)),
                    }
                }
            },
            NetCall::GetSockOpt { fd, level, optname } => {
                if level == SOL_SOCKET && optname == SO_REUSEADDR {
                    self.act(fd, NetOp::GetFlag { fd, flag: SocketFlag::ReuseAddress })
                } else if level == IPPROTO_TCP && optname == TCP_NODELAY {
                    self.act(fd, NetOp::GetFlag { fd, flag: SocketFlag::NoDelay })
                } else {
                    match self.table.get_sock_type(fd) {
                        Ok(t) => if level == SOL_SOCKET && optname == SO_TYPE {
                            NetStep::Reply(integer_reply("value", t as i64))
                        } else {
                            NetStep::Reply(integer_reply("value", 0))
                        },
                        Err(m) => NetStep::Reply(Err(m)),
                    }
                }
            },
            NetCall::GetPeerName { fd } => self.act(fd, NetOp::PeerName { fd }),
            NetCall::GetSockName { fd } => self.act(fd, NetOp::SockName { fd }),
        }
    }

    /// Begin with a call as it came from the guest.
    pub fn start(&mut self, tool: NetTool, args: &Value) -> (r: NetStep)
        requires
            old(self).table.wf(),
        ensures
            exists|decoded: Result<NetCall, String>| #[trigger]
                decodes_to(tool, json::data(*args), decoded) && match decoded {
                    Ok(call) => begins(call, old(self).table@, r) && final(self).table@
                        == table_after(call, old(self).table@),
                    Err(m) => replies(r, Err(m@)) && final(self).table@ == old(self).table@,
                },
            final(self).policy == old(self).policy,
            final(self).ports == old(self).ports,
            final(self).table.wf(),
            final(self).table.next_id == old(self).table.next_id,
    {
        match decode_net(tool, args) {
            Ok(call) => {
                let step = self.begin(call);
                assert(decodes_to(tool, json::data(*args), Ok(call)));
                step
            },
            Err(m) => {
                assert(decodes_to(tool, json::data(*args), Err(m)));
                NetStep::Reply(Err(m))
            },
        }
    }

    /// Go on with the parsed address, or the reason why it is none.
    pub fn with_address(&self, call: NetCall, parsed: Result<Address, String>) -> (r: NetStep)
        requires
            call.has_address(),
        ensures
            goes_on(call, self.ports, self.table@, parsed, r),
    {
        let address = match parsed {
            Ok(address) => address,
            Err(m) => {
                let mut out = owned("bad addr: ");
                out.append(m.as_str());
                return NetStep::Reply(Err(out));
            },
        };
        match call {
            NetCall::Connect { fd, addr, port } => NetStep::Check(
                NetCall::Connect { fd, addr, port },
                Endpoint { address, port },
            ),
            NetCall::SendTo { fd, data, addr, port } => NetStep::Check(
                NetCall::SendTo { fd, data, addr, port },
                Endpoint { address, port },
            ),
            NetCall::Bind { fd, addr: _, port } => match &self.ports {
                None => NetStep::Reply(Err(owned("Permission denied: no --port specified for bind"))),
                Some(list) => match list.check(port) {
                    Ok(_) => self.act(fd, NetOp::Bind { fd, at: Endpoint { address, port } }),
                    Err(m) => NetStep::Reply(Err(m)),
                },
            },
            _ => NetStep::Reply(Err(String::new())),
        }
    }

    /// Go on with the answers of the lookups that the policy asked for.
    pub fn with_answers(
        &self,
        call: NetCall,
        to: Endpoint,
        answers: &[Option<Vec<Ip>>],
        resolvers: &[Ip],
    ) -> (r: NetStep)
        requires
            call is Connect || call is SendTo,
            self.policy.decided(to.address.ip, answers@),
        ensures
            is_checked(call, to, self.policy, answers@, resolvers@, self.table@, r),
    {
        match self.policy.check(&to, answers, resolvers) {
            Err(m) => NetStep::Reply(Err(m)),
            Ok(_) => match call {
                NetCall::Connect { fd, .. } => self.act(fd, NetOp::Connect { fd, to }),
                NetCall::SendTo { fd, data, .. } => self.act(fd, NetOp::SendTo { fd, data, to }),
                _ => NetStep::Reply(Err(String::new())),
            },
        }
    }
}

// ---------------------------------------------------------------------------
// Results
// ---------------------------------------------------------------------------

/// How an operation ended.
#[derive(Debug, PartialEq, Eq)]
pub enum NetEvent {
    /// It was done.
    Done,
    /// A connection was accepted, from this peer where it has an IP address.
    Accepted(Option<Endpoint>),
    /// So many bytes were sent.
    Sent(u64),
    /// These bytes were received, from this peer where one is known.
    Received(Vec<u8>, Option<Endpoint>),
    /// The option is on or off.
    Flag(bool),
    /// The name of the socket or its peer, where it is an IP endpoint.
    Name(Option<Endpoint>),
    /// The operation failed, for this reason.
    Failed(String),
}

/// `event` is one that can end `op`.
pub open spec fn can_end(op: NetOp, event: NetEvent) -> bool {
    event is Failed || match op {
        NetOp::Open { .. } => event is Done,
        NetOp::Connect { .. } => event is Done,
        NetOp::Bind { .. } => event is Done,
        NetOp::Listen { .. } => event is Done,
        NetOp::Accept { .. } => event is Accepted,
        NetOp::Send { .. } => event is Sent,
        NetOp::SendTo { .. } => event is Sent,
        NetOp::Recv { len, .. } => event matches NetEvent::Received(b, _) && b@.len() <= len <= MAX_RECV,
        NetOp::RecvFrom { len, .. } => event matches NetEvent::Received(b, _) && b@.len() <= len
            <= MAX_RECV,
        NetOp::Close { .. } => event is Done,
        NetOp::Shutdown { .. } => event is Done,
        NetOp::SetFlag { .. } => event is Done,
        NetOp::GetFlag { .. } => event is Flag,
        NetOp::PeerName { .. } => event is Name,
        NetOp::SockName { .. } => event is Name,
    }
}

/// The object `d` with the address and the port of a peer, where there is one.
pub open spec fn with_peer(d: JsonData, peer: Option<Endpoint>) -> JsonData {
    match peer {
        Some(e) => json::with_member(
            json::with_member(d, "addr"@, JsonData::Str(e.address.text@)),
            "port"@,
            JsonData::Unsigned(e.port as u64),
        ),
        None => d,
    }
}

/// The reply for some received bytes.
pub open spec fn received(b: Seq<u8>) -> JsonData {
    json::with_member(
        json::one_member("data"@, JsonData::Str(base64_text::base64_encoded(b))),
        "len"@,
        JsonData::Unsigned(b.len() as u64),
    )
}

/// The reply for the name of a socket.
pub open spec fn named(name: Option<Endpoint>) -> JsonData {
    match name {
        Some(e) => json::with_member(
            json::with_member(
                json::one_member(
                    "family"@,
                    json::integer(
                        if e.address.ip is V4 {
                            AF_INET as i64
                        } else {
                            AF_INET6 as i64
                        },
                    ),
                ),
                "addr"@,
                JsonData::Str(e.address.text@),
            ),
            "port"@,
            JsonData::Unsigned(e.port as u64),
        ),
        None => json::with_member(
            json::one_member("addr"@, JsonData::Str("0.0.0.0"@)),
            "port"@,
            JsonData::Unsigned(0),
        ),
    }
}

/// The result of a call whose operation ended so; `new_fd` is the descriptor of
/// the socket that it opened.
pub open spec fn ends_with(op: NetOp, event: NetEvent, new_fd: u64) -> Result<
    JsonData,
    Seq<char>,
> {
    match event {
        NetEvent::Failed(m) => Err(m@),
        NetEvent::Done => if op is Open {
            Ok(json::one_member("fd"@, JsonData::Unsigned(new_fd)))
        } else {
            Ok(json::no_members())
        },
        NetEvent::Accepted(peer) => Ok(
            with_peer(json::one_member("fd"@, JsonData::Unsigned(new_fd)), peer),
        ),
        NetEvent::Sent(n) => Ok(json::one_member("sent"@, JsonData::Unsigned(n))),
        NetEvent::Received(b, peer) => Ok(
            if op is RecvFrom {
                with_peer(received(b@), peer)
            } else {
                received(b@)
            },
        ),
        NetEvent::Flag(on) => Ok(
            json::one_member(
                "value"@,
                json::integer(
                    if on {
                        1
                    } else {
                        0
                    },
                ),
            ),
        ),
        NetEvent::Name(name) => Ok(named(name)),
    }
}

/// The type of the socket that an operation opened, if it opened one.
pub open spec fn opens(op: NetOp, event: NetEvent) -> Option<i32> {
    match (op, event) {
        (_, NetEvent::Failed(_)) => None,
        (NetOp::Open { sock_type, .. }, _) => Some(sock_type),
        (NetOp::Accept { sock_type, .. }, _) => Some(sock_type),
        _ => None,
    }
}

fn set_peer(v: &mut Value, peer: &Option<Endpoint>)
    requires
        json::data(*old(v)) is Object,
    ensures
        json::data(*final(v)) == with_peer(json::data(*old(v)), *peer),
{
    match peer {
        Some(e) => {
            set_member(v, "addr", string_value(e.address.text.as_str()));
            set_member(v, "port", unsigned_value(e.port as u64));
        },
        None => {},
    }
}

fn received_reply(b: &[u8]) -> (r: Value)
    requires
        b@.len() <= MAX_RECV,
    ensures
        json::data(r) == received(b@),
        (base64_text::base64_decoded(base64_text::base64_encoded(b@)) == Ok::<Seq<u8>, Seq<char>>(
            b@,
        )),
{
    let mut v = object_value();
    set_member(&mut v, "data", string_value(encode_base64(b).as_str()));
    set_member(&mut v, "len", unsigned_value(b.len() as u64));
    v
}

/// A socket's name as it goes to the guest.
pub fn sockaddr_to_json(name: &Option<Endpoint>) -> (r: Value)
    ensures
        json::data(r) == named(*name),
{
    let mut v = object_value();
    match name {
        Some(e) => {
            let family: i64 = match e.address.ip {
                Ip::V4(_) => AF_INET as i64,
                Ip::V6(_) => AF_INET6 as i64,
            };
            set_member(&mut v, "family", integer_value(family));
            set_member(&mut v, "addr", string_value(e.address.text.as_str()));
            set_member(&mut v, "port", unsigned_value(e.port as u64));
        },
        None => {
            set_member(&mut v, "addr", string_value("0.0.0.0"));
            set_member(&mut v, "port", unsigned_value(0));
        },
    }
    v
}

impl NetHost {
    /// The result of a call whose operation ended, and the descriptor of the socket
    /// that it opened, if it did.
    pub fn finish(&mut self, op: NetOp, event: NetEvent) -> (r: (
        Result<Value, String>,
        Option<u64>,
    ))
        requires
            can_end(op, event),
            old(self).table.wf(),
            old(self).table.next_id < u64::MAX,
        ensures
            json::result_data(r.0) == ends_with(op, event, old(self).table.next_id),
            event matches NetEvent::Received(b, _) ==> base64_text::base64_decoded(
                base64_text::base64_encoded(b@),
            ) == Ok::<Seq<u8>, Seq<char>>(b@),
            final(self).policy == old(self).policy,
            final(self).ports == old(self).ports,
            final(self).table.wf(),
            match opens(op, event) {
                Some(t) => {
                    &&& r.1 == Some(old(self).table.next_id)
                    &&& !old(self).table@.dom().contains(old(self).table.next_id)
                    &&& final(self).table@ == old(self).table@.insert(old(self).table.next_id, t)
                    &&& final(self).table.next_id == old(self).table.next_id + 1
                },
                None => {
                    &&& r.1 is None
                    &&& final(self).table == old(self).table
                },
            },
    {
        match event {
            NetEvent::Failed(m) => (Err(m), None),
            NetEvent::Done => match op {
                NetOp::Open { sock_type, .. } => {
                    let fd: u64 = self.table.insert(sock_type);
                    (Ok(unsigned_reply("fd", fd)), Some(fd))
                },
                _ => (no_members_reply(), None),
            },
            NetEvent::Accepted(peer) => {
                let sock_type: i32 = match op {
                    NetOp::Accept { sock_type, .. } => sock_type,
                    _ => 0,
                };
                let fd: u64 = self.table.insert(sock_type);
                let mut v = unsigned_reply("fd", fd);
                set_peer(&mut v, &peer);
                (Ok(v), Some(fd))
            },
            NetEvent::Sent(n) => (Ok(unsigned_reply("sent", n)), None),
            NetEvent::Received(b, peer) => {
                let mut v = received_reply(&b);
                if let NetOp::RecvFrom { .. } = op {
                    set_peer(&mut v, &peer);
                }
                (Ok(v), None)
            },
            NetEvent::Flag(on) => (
                integer_reply(
                    "value",
                    if on {
                        1
                    } else {
                        0
                    },
                ),
                None,
            ),
            NetEvent::Name(name) => (Ok(sockaddr_to_json(&name)), None),
        }
    }
}

// ---------------------------------------------------------------------------
// Laws
// ---------------------------------------------------------------------------

/// The socket that an operation works on.
pub open spec fn socket_of(op: NetOp) -> Option<u64> {
    match op {
        NetOp::Open { .. } => None,
        NetOp::Connect { fd, .. } => Some(fd),
        NetOp::Bind { fd, .. } => Some(fd),
        NetOp::Listen { fd, .. } => Some(fd),
        NetOp::Accept { fd, .. } => Some(fd),
        NetOp::Send { fd, .. } => Some(fd),
        NetOp::SendTo { fd, .. } => Some(fd),
        NetOp::Recv { fd, .. } => Some(fd),
        NetOp::RecvFrom { fd, .. } => Some(fd),
        NetOp::Close { fd } => Some(fd),
        NetOp::Shutdown { fd, .. } => Some(fd),
        NetOp::SetFlag { fd, .. } => Some(fd),
        NetOp::GetFlag { fd, .. } => Some(fd),
        NetOp::PeerName { fd } => Some(fd),
        NetOp::SockName { fd } => Some(fd),
    }
}

/// The host acts only on sockets that are open: no step of a call asks for an
/// operation on a descriptor that is not in the table.
pub proof fn only_open_sockets_are_acted_on(
    call: NetCall,
    table: Map<u64, i32>,
    ports: Option<ListenPorts>,
    parsed: Result<Address, String>,
    to: Endpoint,
    policy: NetworkPolicy,
    answers: Answers,
    resolvers: Seq<Ip>,
    op: NetOp,
    fd: u64,
)
    requires
        socket_of(op) == Some(fd),
        ({
            ||| begins(call, table, NetStep::Act(op))
            ||| goes_on(call, ports, table, parsed, NetStep::Act(op))
            ||| is_checked(call, to, policy, answers, resolvers, table, NetStep::Act(op))
        }),
    ensures
        table.dom().contains(fd),
{
}

/// No data goes out but past the policy: a connect or a send to an endpoint is
/// never asked for before the policy was asked, and only where the policy
/// permits that endpoint.
pub proof fn outbound_operations_pass_the_policy(
    call: NetCall,
    table: Map<u64, i32>,
    ports: Option<ListenPorts>,
    parsed: Result<Address, String>,
    to: Endpoint,
    policy: NetworkPolicy,
    answers: Answers,
    resolvers: Seq<Ip>,
    op: NetOp,
)
    requires
        op is Connect || op is SendTo,
    ensures
        !begins(call, table, NetStep::Act(op)),
        !goes_on(call, ports, table, parsed, NetStep::Act(op)),
        is_checked(call, to, policy, answers, resolvers, table, NetStep::Act(op))
            ==> policy.permits(to, answers, resolvers) && match op {
            NetOp::Connect { to: e, .. } => e == to,
            NetOp::SendTo { to: e, .. } => e == to,
            _ => false,
        },
{
}

/// Without listen ports no bind is ever asked for; with them, only one to a port
/// that is listed.
pub proof fn a_bind_needs_a_listed_port(
    call: NetCall,
    table: Map<u64, i32>,
    ports: Option<ListenPorts>,
    parsed: Result<Address, String>,
    to: Endpoint,
    policy: NetworkPolicy,
    answers: Answers,
    resolvers: Seq<Ip>,
    op: NetOp,
)
    requires
        op is Bind,
    ensures
        !begins(call, table, NetStep::Act(op)),
        !is_checked(call, to, policy, answers, resolvers, table, NetStep::Act(op)),
        goes_on(call, ports, table, parsed, NetStep::Act(op)) ==> (ports matches Some(list)
            && list.ports@.contains(op->at.port)),
{
}

/// A socket knows the type that it was opened with: reading the type option of a
/// socket that a call has just opened gives the type in that call.
pub proof fn the_type_option_is_the_opened_type(
    opened: NetOp,
    fd: u64,
    table: Map<u64, i32>,
    step: NetStep,
)
    requires
        opens(opened, NetEvent::Done) is Some,
        begins(
            NetCall::GetSockOpt { fd, level: SOL_SOCKET, optname: SO_TYPE },
            table.insert(fd, opens(opened, NetEvent::Done)->0),
            step,
        ),
    ensures
        replies(
            step,
            Ok(
                json::one_member(
                    "value"@,
                    json::integer(opens(opened, NetEvent::Done)->0 as i64),
                ),
            ),
        ),
{
}

/// The socket that a call works on.
pub open spec fn socket_in(call: NetCall) -> Option<u64> {
    match call {
        NetCall::Socket { .. } => None,
        NetCall::Connect { fd, .. } => Some(fd),
        NetCall::Bind { fd, .. } => Some(fd),
        NetCall::Listen { fd, .. } => Some(fd),
        NetCall::Accept { fd } => Some(fd),
        NetCall::Send { fd, .. } => Some(fd),
        NetCall::SendTo { fd, .. } => Some(fd),
        NetCall::Recv { fd, .. } => Some(fd),
        NetCall::RecvFrom { fd, .. } => Some(fd),
        NetCall::Close { fd } => Some(fd),
        NetCall::Shutdown { fd, .. } => Some(fd),
        NetCall::SetSockOpt { fd, .. } => Some(fd),
        NetCall::GetSockOpt { fd, .. } => Some(fd),
        NetCall::GetPeerName { fd } => Some(fd),
        NetCall::GetSockName { fd } => Some(fd),
    }
}

/// A socket that was closed is gone: a call on it is answered that its descriptor is
/// bad. A call that needs no address is answered so at once; a bind to a listed
/// port, once its address is parsed; a connect or a send, once the policy permits it.
pub proof fn a_closed_socket_is_gone(
    table: Map<u64, i32>,
    fd: u64,
    call: NetCall,
    ports: Option<ListenPorts>,
    address: Address,
    to: Endpoint,
    policy: NetworkPolicy,
    answers: Answers,
    resolvers: Seq<Ip>,
    step: NetStep,
)
    requires
        socket_in(call) == Some(fd),
    ensures
        ({
            let gone = table_after(NetCall::Close { fd }, table);
            let bad = replies(step, Err(bad_fd(fd)));
            &&& !call.has_address() && begins(call, gone, step) ==> bad
            &&& (call matches NetCall::Bind { port, .. } && (ports matches Some(list)
                && list.ports@.contains(port))) && goes_on(call, ports, gone, Ok(address), step)
                ==> bad
            &&& (call is Connect || call is SendTo) && policy.permits(to, answers, resolvers)
                && is_checked(call, to, policy, answers, resolvers, gone, step) ==> bad
        }),
{
}

/// However much a guest wants to receive, it is never more than the cap.
pub proof fn receives_are_capped(tool: NetTool, d: JsonData, call: NetCall)
    requires
        decodes_to(tool, d, Ok(call)),
    ensures
        call matches NetCall::Recv { len, .. } ==> len <= MAX_RECV,
        call matches NetCall::RecvFrom { len, .. } ==> len <= MAX_RECV,
{
}

/// A descriptor is never given out twice: whatever was closed since, a socket that
/// is opened later gets another one.
pub proof fn descriptors_are_not_used_again(before: SocketTable, after: SocketTable, fd: u64)
    requires
        before.wf(),
        before@.dom().contains(fd),
        before.next_id <= after.next_id,
    ensures
        after.next_id != fd,
{
}

/// A receive never takes more than was asked for, and as much where that is within the
/// cap; what comes of it is no longer.
pub proof fn a_receive_takes_what_was_asked_for(
    tool: NetTool,
    m: Map<Seq<char>, JsonData>,
    call: NetCall,
    n: u64,
    b: Vec<u8>,
    peer: Option<Endpoint>,
)
    requires
        decodes_to(tool, JsonData::Object(m), Ok(call)),
        json::number_under(m, "len"@) == Some(n),
    ensures
        call matches NetCall::Recv { fd, len } ==> {
            &&& len <= n
            &&& n <= 65536 ==> len == n
            &&& n > 65536 ==> len == 65536
            &&& can_end(NetOp::Recv { fd, len }, NetEvent::Received(b, peer)) ==> b@.len() <= n
        },
        call matches NetCall::RecvFrom { fd, len } ==> {
            &&& len <= n
            &&& n <= 65536 ==> len == n
            &&& n > 65536 ==> len == 65536
            &&& can_end(NetOp::RecvFrom { fd, len }, NetEvent::Received(b, peer)) ==> b@.len() <= n
        },
{
}

/// `value` is the integer under `key`, cut to 32 bits, or `default` where there is
/// none that fits in 64 bits with a sign.
pub open spec fn is_cut(
    value: i32,
    m: Map<Seq<char>, JsonData>,
    key: Seq<char>,
    default: int,
) -> bool {
    if m.dom().contains(key) && m[key] is Negative {
        same_low_bits(value, m[key]->Negative_0 as int)
    } else {
        match json::number_under(m, key) {
            Some(n) => if n <= i64::MAX {
                same_low_bits(value, n as int)
            } else {
                value == default
            },
            None => value == default,
        }
    }
}

/// `value` is `n`, but for multiples of two to the power of 32.
pub open spec fn same_low_bits(value: i32, n: int) -> bool {
    (n - value) % 0x1_0000_0000 == 0
}

/// `port` is the number under `port`, cut to 16 bits, or 0.
pub open spec fn is_port(port: u16, m: Map<Seq<char>, JsonData>) -> bool {
    match json::number_under(m, "port"@) {
        Some(n) => port == n % 0x1_0000,
        None => port == 0,
    }
}

/// The bytes under `data` are `b`.
pub open spec fn is_data(b: Seq<u8>, m: Map<Seq<char>, JsonData>) -> bool {
    json::text_under(m, "data"@) matches Some(t) && base64_text::base64_decoded(t) == Ok::<
        Seq<u8>,
        Seq<char>,
    >(b)
}

/// How many bytes are to be received: the number under `len` up to the cap, or 4096.
pub open spec fn is_len(len: u64, m: Map<Seq<char>, JsonData>) -> bool {
    match json::number_under(m, "len"@) {
        Some(n) => len <= n && len <= 65536 && (len == n || len == 65536),
        None => len == 4096,
    }
}

/// What a call is made of stands in the arguments that the guest sent.
pub open spec fn stands_in(call: NetCall, m: Map<Seq<char>, JsonData>) -> bool {
    match call {
        NetCall::Socket { family, sock_type, protocol } => is_cut(family, m, "family"@, 2) && is_cut(
            sock_type,
            m,
            "type"@,
            1,
        ) && is_cut(protocol, m, "protocol"@, 0),
        NetCall::Connect { addr, port, .. } => json::text_under(m, "addr"@) == Some(addr@)
            && is_port(port, m),
        NetCall::Bind { addr, port, .. } => json::text_under(m, "addr"@) == Some(addr@) && is_port(
            port,
            m,
        ),
        NetCall::Listen { backlog, .. } => is_cut(backlog, m, "backlog"@, 128),
        NetCall::Send { data, .. } => is_data(data@, m),
        NetCall::SendTo { data, addr, port, .. } => is_data(data@, m) && json::text_under(m, "addr"@)
            == Some(addr@) && is_port(port, m),
        NetCall::Recv { len, .. } => is_len(len, m),
        NetCall::RecvFrom { len, .. } => is_len(len, m),
        NetCall::Shutdown { how, .. } => is_cut(how, m, "how"@, 2),
        NetCall::SetSockOpt { level, optname, value, .. } => is_cut(level, m, "level"@, 0) && is_cut(
            optname,
            m,
            "optname"@,
            0,
        ) && is_cut(value, m, "value"@, 0),
        NetCall::GetSockOpt { level, optname, .. } => is_cut(level, m, "level"@, 0) && is_cut(
            optname,
            m,
            "optname"@,
            0,
        ),
        _ => true,
    }
}

/// A number in the arguments is cut to 32 bits.
pub proof fn lemma_cut(m: Map<Seq<char>, JsonData>, key: Seq<char>, default: i64)
    requires
        -0x8000_0000 <= default < 0x8000_0000,
    ensures
        is_cut(i32_member(JsonData::Object(m), key, default), m, key, default as int),
{
    json::members_are_read_as_they_stand(m, key, default);
    lemma_low_bits(json::signed_member(JsonData::Object(m), key, default));
}

proof fn lemma_low_bits(n: i64)
    ensures
        same_low_bits(n as i32, n as int),
{
    let wide = (n as i32) as i64;
    assert((n - wide) % 0x1_0000_0000 == 0) by (bit_vector)
        requires
            wide == (n as i32) as i64,
    ;
}

proof fn lemma_port(m: Map<Seq<char>, JsonData>)
    ensures
        is_port(port_member(JsonData::Object(m)), m),
{
    if json::number_under(m, "port"@) is Some {
        let n = json::number_under(m, "port"@)->0;
        assert((n as u16) == n % 0x1_0000) by (bit_vector);
    }
}

/// A call is decoded to what the guest sent: the tool that was called, the socket, and
/// what stands in the arguments for it.
pub proof fn a_call_is_what_the_guest_sent(
    tool: NetTool,
    m: Map<Seq<char>, JsonData>,
    call: NetCall,
)
    requires
        decodes_to(tool, JsonData::Object(m), Ok(call)),
    ensures
        tool_of(call) == tool,
        socket_in(call) matches Some(fd) ==> json::number_under(m, "fd"@) == Some(fd),
        stands_in(call, m),
{
    lemma_port(m);
    lemma_cut(m, "family"@, 2);
    lemma_cut(m, "type"@, 1);
    lemma_cut(m, "protocol"@, 0);
    lemma_cut(m, "backlog"@, 128);
    lemma_cut(m, "how"@, 2);
    lemma_cut(m, "level"@, 0);
    lemma_cut(m, "optname"@, 0);
    lemma_cut(m, "value"@, 0);
}

/// The tool that a call is for.
pub open spec fn tool_of(call: NetCall) -> NetTool {
    match call {
        NetCall::Socket { .. } => NetTool::Socket,
        NetCall::Connect { .. } => NetTool::Connect,
        NetCall::Bind { .. } => NetTool::Bind,
        NetCall::Listen { .. } => NetTool::Listen,
        NetCall::Accept { .. } => NetTool::Accept,
        NetCall::Send { .. } => NetTool::Send,
        NetCall::SendTo { .. } => NetTool::SendTo,
        NetCall::Recv { .. } => NetTool::Recv,
        NetCall::RecvFrom { .. } => NetTool::RecvFrom,
        NetCall::Close { .. } => NetTool::Close,
        NetCall::Shutdown { .. } => NetTool::Shutdown,
        NetCall::SetSockOpt { .. } => NetTool::SetSockOpt,
        NetCall::GetSockOpt { .. } => NetTool::GetSockOpt,
        NetCall::GetPeerName { .. } => NetTool::GetPeerName,
        NetCall::GetSockName { .. } => NetTool::GetSockName,
    }
}

/// A call is refused only for what it lacks: the socket, which opening one does not
/// need; the address or the data that its tool needs; or data that are base64.
pub proof fn a_call_is_refused_for_what_it_lacks(
    tool: NetTool,
    m: Map<Seq<char>, JsonData>,
    r: Result<NetCall, String>,
)
    requires
        decodes_to(tool, JsonData::Object(m), r),
    ensures
        ({
            let fd = json::number_under(m, "fd"@) is Some;
            let addr = json::text_under(m, "addr"@) is Some;
            let data = json::text_under(m, "data"@);
            let sends = tool is Send || tool is SendTo;
            &&& r is Ok <==> {
                &&& tool is Socket || fd
                &&& tool is Connect || tool is Bind || tool is SendTo ==> addr
                &&& sends ==> (data matches Some(t) && base64_text::base64_decoded(t) is Ok)
            }
            &&& !(tool is Socket) && !fd ==> json::fails(r, "missing 'fd'"@)
            &&& (tool is Connect || tool is Bind) && fd && !addr ==> json::fails(r, "missing 'addr'"@)
            &&& tool is SendTo && fd && !addr && (data matches Some(t) && base64_text::base64_decoded(
                t,
            ) is Ok) ==> json::fails(r, "missing 'addr'"@)
            &&& sends && fd && data is None ==> json::fails(r, "missing 'data'"@)
            &&& sends && fd ==> (data matches Some(t) ==> (base64_text::base64_decoded(
                t,
            ) matches Err(cause) ==> json::fails(r, "base64 decode: "@ + cause)))
        }),
{
}

/// A socket is opened as it was asked for: of a family that there is, as a stream or
/// for datagrams, with the protocol left to the host where none is named. Anything
/// else is refused.
pub proof fn a_socket_is_opened_as_asked_for(
    family: i32,
    sock_type: i32,
    protocol: i32,
    table: Map<u64, i32>,
    step: NetStep,
)
    requires
        begins(NetCall::Socket { family, sock_type, protocol }, table, step),
    ensures
        (family == 2 || family == 10) && (sock_type == 1 || sock_type == 2) ==> {
            step matches NetStep::Act(NetOp::Open { v6, sock_type: t, protocol: p }) && v6 == (family
                == 10) && t == sock_type && (protocol == 0 ==> p is None) && (protocol != 0 ==> p
                == Some(protocol))
        },
        family != 2 && family != 10 ==> replies(
            step,
            Err("InvalidInput: unsupported family "@ + text::decimal_int(family as int)),
        ),
        (family == 2 || family == 10) && sock_type != 1 && sock_type != 2 ==> replies(
            step,
            Err("InvalidInput: unsupported type "@ + text::decimal_int(sock_type as int)),
        ),
{
}

/// A call on an open socket is carried out on that socket, with all that it says.
pub proof fn a_call_on_an_open_socket_is_carried_out(
    call: NetCall,
    table: Map<u64, i32>,
    fd: u64,
    step: NetStep,
)
    requires
        begins(call, table, step),
        socket_in(call) == Some(fd),
        table.dom().contains(fd),
    ensures
        match call {
            NetCall::Listen { backlog, .. } => step == NetStep::Act(NetOp::Listen { fd, backlog }),
            NetCall::Accept { .. } => step matches NetStep::Act(NetOp::Accept { fd: f, .. }) && f == fd,
            NetCall::Send { data, .. } => step == NetStep::Act(NetOp::Send { fd, data }),
            NetCall::Recv { len, .. } => step == NetStep::Act(NetOp::Recv { fd, len }),
            NetCall::RecvFrom { len, .. } => step == NetStep::Act(NetOp::RecvFrom { fd, len }),
            NetCall::Close { .. } => step == NetStep::Act(NetOp::Close { fd }),
            NetCall::Shutdown { how, .. } => step matches NetStep::Act(
                NetOp::Shutdown { fd: f, half },
            ) && f == fd && (half is Read <==> how == 0) && (half is Write <==> how == 1),
            NetCall::GetPeerName { .. } => step == NetStep::Act(NetOp::PeerName { fd }),
            NetCall::GetSockName { .. } => step == NetStep::Act(NetOp::SockName { fd }),
            NetCall::Connect { .. } => step == NetStep::Parse(call),
            NetCall::Bind { .. } => step == NetStep::Parse(call),
            NetCall::SendTo { .. } => step == NetStep::Parse(call),
            _ => true,
        },
{
}

/// The options that can be set are set on the socket, on or off by the value; others
/// are accepted, and nothing is done.
pub proof fn a_known_option_is_set(
    fd: u64,
    level: i32,
    optname: i32,
    value: i32,
    table: Map<u64, i32>,
    step: NetStep,
)
    requires
        begins(NetCall::SetSockOpt { fd, level, optname, value }, table, step),
        table.dom().contains(fd),
    ensures
        level == 1 && optname == 2 ==> step == NetStep::Act(
            NetOp::SetFlag { fd, flag: SocketFlag::ReuseAddress, on: value != 0 },
        ),
        level == 1 && optname == 9 ==> step == NetStep::Act(
            NetOp::SetFlag { fd, flag: SocketFlag::KeepAlive, on: value != 0 },
        ),
        level == 6 && optname == 1 ==> step == NetStep::Act(
            NetOp::SetFlag { fd, flag: SocketFlag::NoDelay, on: value != 0 },
        ),
        !(level == 1 && (optname == 2 || optname == 9)) && !(level == 6 && optname == 1) ==> replies(
            step,
            Ok(JsonData::Object(Map::empty())),
        ),
{
}

/// The options that can be read are read from the socket; its type is known without
/// asking, and any other option is 0.
pub proof fn a_known_option_is_read(
    fd: u64,
    level: i32,
    optname: i32,
    table: Map<u64, i32>,
    step: NetStep,
)
    requires
        begins(NetCall::GetSockOpt { fd, level, optname }, table, step),
        table.dom().contains(fd),
    ensures
        level == 1 && optname == 2 ==> step == NetStep::Act(
            NetOp::GetFlag { fd, flag: SocketFlag::ReuseAddress },
        ),
        level == 6 && optname == 1 ==> step == NetStep::Act(
            NetOp::GetFlag { fd, flag: SocketFlag::NoDelay },
        ),
        level == 1 && optname == 3 ==> replies(
            step,
            Ok(JsonData::Object(map!["value"@ => json::integer(table[fd] as i64)])),
        ),
        !(level == 1 && (optname == 2 || optname == 3)) && !(level == 6 && optname == 1) ==> replies(
            step,
            Ok(JsonData::Object(map!["value"@ => JsonData::Unsigned(0)])),
        ),
{
}

/// A connect or a send goes to the address that was parsed, at the port of the call,
/// once the policy permits it, and carries the data of the call; what the policy
/// denies is answered so.
pub proof fn a_permitted_call_goes_where_it_asked(
    call: NetCall,
    ports: Option<ListenPorts>,
    table: Map<u64, i32>,
    address: Address,
    policy: NetworkPolicy,
    answers: Answers,
    resolvers: Seq<Ip>,
    first: NetStep,
    to: Endpoint,
    step: NetStep,
)
    requires
        call is Connect || call is SendTo,
        goes_on(call, ports, table, Ok(address), first),
        first == NetStep::Check(call, to),
        is_checked(call, to, policy, answers, resolvers, table, step),
    ensures
        to.address == address,
        call matches NetCall::Connect { port, .. } ==> to.port == port,
        call matches NetCall::SendTo { port, .. } ==> to.port == port,
        policy.permits(to, answers, resolvers) ==> match call {
            NetCall::Connect { fd, .. } => table.dom().contains(fd) ==> step == NetStep::Act(
                NetOp::Connect { fd, to },
            ),
            NetCall::SendTo { fd, data, .. } => table.dom().contains(fd) ==> step == NetStep::Act(
                NetOp::SendTo { fd, data, to },
            ),
            _ => false,
        },
        !policy.permits(to, answers, resolvers) ==> replies(
            step,
            Err("network policy denies connection to "@ + to.wording()),
        ),
{
}

/// A call whose address was parsed goes on to the policy where it sends something out.
pub proof fn outbound_calls_are_checked(
    call: NetCall,
    ports: Option<ListenPorts>,
    table: Map<u64, i32>,
    address: Address,
    step: NetStep,
)
    requires
        call is Connect || call is SendTo,
        goes_on(call, ports, table, Ok(address), step),
    ensures
        step matches NetStep::Check(c, to) && c == call && to.address == address,
{
}

/// A bind to a listed port is carried out at the address and the port of the call;
/// one to another port, or without listed ports, is refused.
pub proof fn a_bind_to_a_listed_port_is_carried_out(
    fd: u64,
    addr: String,
    port: u16,
    ports: Option<ListenPorts>,
    table: Map<u64, i32>,
    address: Address,
    step: NetStep,
)
    requires
        goes_on(NetCall::Bind { fd, addr, port }, ports, table, Ok(address), step),
    ensures
        ports matches Some(list) ==> (list.ports@.contains(port) && table.dom().contains(fd) ==> step
            == NetStep::Act(NetOp::Bind { fd, at: Endpoint { address, port } })),
        ports matches Some(list) ==> (!list.ports@.contains(port) ==> (step matches NetStep::Reply(
            Err(m),
        ) && list.denies(port, m@))),
        ports is None ==> replies(step, Err("Permission denied: no --port specified for bind"@)),
{
}

/// An address that cannot be parsed is answered with the reason.
pub proof fn a_bad_address_is_answered_so(
    call: NetCall,
    ports: Option<ListenPorts>,
    table: Map<u64, i32>,
    cause: String,
    step: NetStep,
)
    requires
        goes_on(call, ports, table, Err(cause), step),
    ensures
        replies(step, Err("bad addr: "@ + cause@)),
{
}

/// A descriptor that is not open is answered so, by its number.
pub proof fn a_bad_descriptor_is_answered_so(
    call: NetCall,
    table: Map<u64, i32>,
    fd: u64,
    step: NetStep,
)
    requires
        begins(call, table, step),
        socket_in(call) == Some(fd),
        !table.dom().contains(fd),
        !call.has_address(),
    ensures
        replies(step, Err("bad_fd: "@ + text::decimal(fd as nat))),
{
}

/// Only closing takes a socket out of the table, and takes out no other.
pub proof fn only_closing_takes_a_socket_out(call: NetCall, table: Map<u64, i32>, fd: u64)
    ensures
        !(call is Close) ==> table_after(call, table) == table,
        call == (NetCall::Close { fd }) ==> !table_after(call, table).dom().contains(fd),
        forall|other: u64|
            other != fd && call == (NetCall::Close { fd }) ==> (#[trigger] table_after(
                call,
                table,
            ).dom().contains(other) <==> table.dom().contains(other)) && (table.dom().contains(other)
                ==> table_after(call, table)[other] == table[other]),
{
}

/// A socket that is opened has the type that was asked for, and one that is accepted
/// that of the socket which it was accepted on. Nothing else opens a socket.
pub proof fn a_new_socket_has_its_type(
    v6: bool,
    sock_type: i32,
    protocol: Option<i32>,
    fd: u64,
    table: Map<u64, i32>,
    step: NetStep,
    op: NetOp,
    event: NetEvent,
)
    requires
        begins(NetCall::Accept { fd }, table, step),
        table.dom().contains(fd),
    ensures
        opens(NetOp::Open { v6, sock_type, protocol }, NetEvent::Done) == Some(sock_type),
        step matches NetStep::Act(accept) && (event is Accepted ==> opens(accept, event) == Some(
            table[fd],
        )),
        !(op is Open) && !(op is Accept) || event is Failed ==> opens(op, event) is None,
{
}

/// A new socket is told by its descriptor, with the peer's address and port where it
/// was accepted from one.
pub proof fn a_new_socket_is_told(
    v6: bool,
    sock_type: i32,
    protocol: Option<i32>,
    op: NetOp,
    peer: Endpoint,
    fd: u64,
)
    ensures
        ends_with(NetOp::Open { v6, sock_type, protocol }, NetEvent::Done, fd) == Ok::<
            JsonData,
            Seq<char>,
        >(JsonData::Object(map!["fd"@ => JsonData::Unsigned(fd)])),
        ends_with(op, NetEvent::Accepted(None), fd) == Ok::<JsonData, Seq<char>>(
            JsonData::Object(map!["fd"@ => JsonData::Unsigned(fd)]),
        ),
        ends_with(op, NetEvent::Accepted(Some(peer)), fd) == Ok::<JsonData, Seq<char>>(
            JsonData::Object(
                map![
                    "fd"@ => JsonData::Unsigned(fd),
                    "addr"@ => JsonData::Str(peer.address.text@),
                    "port"@ => JsonData::Unsigned(peer.port as u64),
                ],
            ),
        ),
{
}

/// What was received is told with its length, and, by a receive that asks for it, with
/// the peer's address and port.
pub proof fn what_was_received_is_told(
    fd: u64,
    len: u64,
    b: Vec<u8>,
    peer: Option<Endpoint>,
    new_fd: u64,
)
    ensures
        ends_with(NetOp::Recv { fd, len }, NetEvent::Received(b, peer), new_fd) == Ok::<
            JsonData,
            Seq<char>,
        >(
            JsonData::Object(
                map![
                    "data"@ => JsonData::Str(base64_text::base64_encoded(b@)),
                    "len"@ => JsonData::Unsigned(b@.len() as u64),
                ],
            ),
        ),
        ends_with(NetOp::RecvFrom { fd, len }, NetEvent::Received(b, peer), new_fd) == Ok::<
            JsonData,
            Seq<char>,
        >(
            JsonData::Object(
                match peer {
                    None => map![
                        "data"@ => JsonData::Str(base64_text::base64_encoded(b@)),
                        "len"@ => JsonData::Unsigned(b@.len() as u64),
                    ],
                    Some(e) => map![
                        "data"@ => JsonData::Str(base64_text::base64_encoded(b@)),
                        "len"@ => JsonData::Unsigned(b@.len() as u64),
                        "addr"@ => JsonData::Str(e.address.text@),
                        "port"@ => JsonData::Unsigned(e.port as u64),
                    ],
                },
            ),
        ),
{
}

/// What an operation gave is told as the host found it: how many bytes were sent, a
/// flag as 1 or 0, a name with its family, address and port, or why it failed.
pub proof fn what_the_host_found_is_told(
    op: NetOp,
    new_fd: u64,
    n: u64,
    name: Endpoint,
    cause: String,
)
    ensures
        ends_with(op, NetEvent::Sent(n), new_fd) == Ok::<JsonData, Seq<char>>(
            JsonData::Object(map!["sent"@ => JsonData::Unsigned(n)]),
        ),
        ends_with(op, NetEvent::Flag(true), new_fd) == Ok::<JsonData, Seq<char>>(
            JsonData::Object(map!["value"@ => JsonData::Unsigned(1)]),
        ),
        ends_with(op, NetEvent::Flag(false), new_fd) == Ok::<JsonData, Seq<char>>(
            JsonData::Object(map!["value"@ => JsonData::Unsigned(0)]),
        ),
        ends_with(op, NetEvent::Name(Some(name)), new_fd) == Ok::<JsonData, Seq<char>>(
            JsonData::Object(
                map![
                    "family"@ => JsonData::Unsigned(if name.address.ip is V6 {
                        10
                    } else {
                        2
                    }),
                    "addr"@ => JsonData::Str(name.address.text@),
                    "port"@ => JsonData::Unsigned(name.port as u64),
                ],
            ),
        ),
        ends_with(op, NetEvent::Name(None), new_fd) == Ok::<JsonData, Seq<char>>(
            JsonData::Object(
                map![
                    "addr"@ => JsonData::Str("0.0.0.0"@),
                    "port"@ => JsonData::Unsigned(0),
                ],
            ),
        ),
        ends_with(op, NetEvent::Failed(cause), new_fd) == Err::<JsonData, Seq<char>>(cause@),
        !(op is Open) ==> ends_with(op, NetEvent::Done, new_fd) == Ok::<JsonData, Seq<char>>(
            JsonData::Object(Map::empty()),
        ),
{
}

/// The names of the networking tools.
pub proof fn the_networking_tools_have_these_names(tool: NetTool)
    ensures
        tool.called() == match tool {
            NetTool::Socket => "net_socket"@,
            NetTool::Connect => "net_connect"@,
            NetTool::Bind => "net_bind"@,
            NetTool::Listen => "net_listen"@,
            NetTool::Accept => "net_accept"@,
            NetTool::Send => "net_send"@,
            NetTool::SendTo => "net_sendto"@,
            NetTool::Recv => "net_recv"@,
            NetTool::RecvFrom => "net_recvfrom"@,
            NetTool::Close => "net_close"@,
            NetTool::Shutdown => "net_shutdown"@,
            NetTool::SetSockOpt => "net_setsockopt"@,
            NetTool::GetSockOpt => "net_getsockopt"@,
            NetTool::GetPeerName => "net_getpeername"@,
            NetTool::GetSockName => "net_getsockname"@,
        },
{
}

} // verus!
