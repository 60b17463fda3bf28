use hyperlight_unikraft::net_policy::{
    resolver_texts, Address, AllowList, BlockList, Endpoint, HostEntry, Ip, ListenPorts, Lookup,
    NetworkPolicy,
};
use hyperlight_unikraft::net_tools::{NetEvent, NetHost, NetOp, NetStep, NetTool};
use hyperlight_unikraft::registry::{
    encode_reply, sandbox_tools, Builtin, Dispatch, ToolRegistry, MAX_SLEEP_NS,
};
use serde_json::Value;
use std::collections::HashSet;

type Handler = fn(Value) -> Result<Value, String>;

fn v4(text: &str) -> Ip {
    let mut bits: u32 = 0;
    for part in text.split('.') {
        bits = bits * 256 + part.parse::<u32>().unwrap();
    }
    Ip::V4(bits)
}

fn address(text: &str) -> Address {
    Address {
        ip: v4(text),
        text: text.to_string(),
    }
}

fn endpoint(text: &str) -> Endpoint {
    let (ip, port) = text.split_once(':').unwrap();
    Endpoint {
        address: address(ip),
        port: port.parse().unwrap(),
    }
}

fn literal(text: &str) -> HostEntry {
    HostEntry {
        name: text.to_string(),
        found: Lookup::Literal(v4(text)),
    }
}

fn allow(ip: &str) -> NetworkPolicy {
    NetworkPolicy::AllowList(AllowList::from_hosts(&[literal(ip)]).unwrap())
}

fn block(ip: &str) -> NetworkPolicy {
    NetworkPolicy::BlockList(BlockList::from_hosts(&[literal(ip)]).unwrap())
}

fn localhost() -> HostEntry {
    HostEntry {
        name: "localhost".to_string(),
        found: Lookup::Addresses(vec![v4("127.0.0.1"), Ip::V6(1)]),
    }
}

fn unresolvable() -> HostEntry {
    HostEntry {
        name: "this.host.definitely.does.not.exist.example".to_string(),
        found: Lookup::Failed("failed to lookup address information".to_string()),
    }
}

// -- NetworkPolicy ------------------------------------------------------------

#[test]
fn network_policy_allow_all_permits_any() {
    let policy = NetworkPolicy::AllowAll;
    assert!(policy.check(&endpoint("1.2.3.4:443"), &[], &[]).is_ok());
}

#[test]
fn network_policy_allowlist_permits_listed_ip() {
    let policy = allow("1.2.3.4");
    assert!(policy.check(&endpoint("1.2.3.4:443"), &[], &[]).is_ok());
}

#[test]
fn network_policy_allowlist_denies_unlisted_ip() {
    let policy = allow("1.2.3.4");
    let err = policy.check(&endpoint("5.6.7.8:80"), &[], &[]).unwrap_err();
    assert!(err.contains("network policy denies"), "{err}");
    assert_eq!(err, "network policy denies connection to 5.6.7.8:80");
}

#[test]
fn test_port53_arbitrary_ip_blocked() {
    let policy = allow("198.51.100.1");
    assert!(
        policy
            .check(&endpoint("198.51.100.99:53"), &[], &[v4("192.0.2.53")])
            .is_err(),
        "port 53 to a non-resolver IP must be denied"
    );
}

#[test]
fn test_port53_real_resolver_allowed() {
    let resolvers = [v4("192.0.2.53")];
    // Allowlist uses a TEST-NET IP that won't match the resolver.
    let policy = allow("198.51.100.1");
    assert!(
        policy.check(&endpoint("192.0.2.53:53"), &[], &resolvers).is_ok(),
        "port 53 to a configured resolver must be allowed"
    );
    assert!(policy.check(&endpoint("192.0.2.53:443"), &[], &resolvers).is_err());
}

#[test]
fn test_port53_blocklist_enforced() {
    // RFC5737 TEST-NET-1 address — blocklist always wins.
    let policy = block("192.0.2.1");
    assert!(
        policy
            .check(&endpoint("192.0.2.1:53"), &[], &[v4("192.0.2.1")])
            .is_err(),
        "blocklisted IP must be denied even on port 53"
    );
}

#[test]
fn allowlist_resolves_hostnames() {
    let al = AllowList::from_hosts(&[localhost()]).unwrap();
    assert!(al.is_allowed(v4("127.0.0.1"), &[]) || al.is_allowed(Ip::V6(1), &[]));
}

#[test]
fn allowlist_rejects_unresolvable_hostname() {
    let result = AllowList::from_hosts(&[unresolvable()]);
    assert!(result.is_err());
    assert_eq!(
        result.unwrap_err().message(),
        "resolve \"this.host.definitely.does.not.exist.example\": failed to lookup address information"
    );
}

#[test]
fn network_policy_blocklist_permits_unlisted_ip() {
    let policy = block("1.2.3.4");
    assert!(policy.check(&endpoint("5.6.7.8:443"), &[], &[]).is_ok());
}

#[test]
fn network_policy_blocklist_denies_listed_ip() {
    let policy = block("1.2.3.4");
    let err = policy.check(&endpoint("1.2.3.4:80"), &[], &[]).unwrap_err();
    assert!(err.contains("network policy denies"), "{err}");
}

#[test]
fn network_policy_blocklist_denies_blocked_ip_on_port53() {
    // RFC5737 TEST-NET-3 — blocklist always wins over DNS exemption.
    let policy = block("203.0.113.1");
    assert!(
        policy.check(&endpoint("203.0.113.1:53"), &[], &[]).is_err(),
        "blocked IP must be denied even on port 53"
    );
}

#[test]
fn blocklist_resolves_hostnames() {
    let bl = BlockList::from_hosts(&[localhost()]).unwrap();
    assert!(bl.is_blocked(v4("127.0.0.1"), &[]) || bl.is_blocked(Ip::V6(1), &[]));
}

#[test]
fn blocklist_rejects_unresolvable_hostname() {
    let result = BlockList::from_hosts(&[unresolvable()]);
    assert!(result.is_err());
}

#[test]
fn hostnames_are_looked_up_anew() {
    let al = AllowList::from_hosts(&[localhost(), literal("9.9.9.9"), {
        HostEntry {
            name: "cdn".to_string(),
            found: Lookup::Addresses(vec![v4("10.0.0.1")]),
        }
    }])
    .unwrap();
    assert_eq!(al.hosts.hostnames, ["localhost", "cdn"]);
    let policy = NetworkPolicy::AllowList(al);
    let to = endpoint("10.0.0.2:80");
    let ip = to.address.ip;
    // Listed addresses need no lookup.
    assert_eq!(policy.next_lookup(v4("10.0.0.1"), &[]), None);
    assert_eq!(policy.next_lookup(ip, &[]), Some("localhost"));
    assert_eq!(policy.next_lookup(ip, &[None]), Some("cdn"));
    assert_eq!(policy.next_lookup(ip, &[None, None]), None);
    assert!(policy.check(&to, &[None, None], &[]).is_err());
    // The host name has moved.
    let moved = [None, Some(vec![v4("10.0.0.3"), ip])];
    assert!(policy.check(&to, &moved, &[]).is_ok());
    assert_eq!(policy.next_lookup(ip, &[Some(vec![ip])]), None);
    // Once it is decided, a further lookup changes nothing.
    assert!(policy.check(&to, &[Some(vec![ip])], &[]).is_ok());
    assert!(policy.check(&to, &[Some(vec![ip]), None], &[]).is_ok());
}

#[test]
fn a_hostname_without_addresses_is_rejected() {
    let entry = HostEntry {
        name: "void".to_string(),
        found: Lookup::Addresses(vec![]),
    };
    let err = BlockList::from_hosts(&[literal("1.1.1.1"), entry, unresolvable()]).unwrap_err();
    assert_eq!(err.message(), "hostname \"void\" resolved to zero addresses");
}

#[test]
fn ipv6_endpoints_are_shown_in_brackets() {
    let to = Endpoint {
        address: Address {
            ip: Ip::V6(1),
            text: "::1".to_string(),
        },
        port: 443,
    };
    assert_eq!(
        allow("1.2.3.4").check(&to, &[], &[]).unwrap_err(),
        "network policy denies connection to [::1]:443"
    );
}

#[test]
fn resolvers_are_read_from_the_configuration() {
    let conf = "# comment\nsearch x\r\n  nameserver 10.0.0.1  # a\nnameserver\t::1\r\nnameserver\nnameserver9.9.9.9\nxnameserver 1.1.1.1";
    assert_eq!(resolver_texts(conf), ["10.0.0.1", "::1", "9.9.9.9"]);
    assert!(resolver_texts("").is_empty());
}

// -- ListenPorts --------------------------------------------------------------

#[test]
fn listen_ports_permits_listed_port() {
    let lp = ListenPorts::from_ports(&[8080]);
    assert!(lp.check(8080).is_ok());
}

#[test]
fn listen_ports_denies_unlisted_port() {
    let lp = ListenPorts::from_ports(&[8080]);
    let err = lp.check(9090).unwrap_err();
    assert!(err.contains("Permission denied"), "{err}");
    assert_eq!(
        err,
        "Permission denied: port 9090 not in listen allowlist ({8080})"
    );
}

#[test]
fn listen_ports_are_a_set() {
    let lp = ListenPorts::from_ports(&[80, 443, 80]);
    assert_eq!(lp.ports, HashSet::from([443, 80]));
    let err = lp.check(1).unwrap_err();
    let either = ["{80, 443}", "{443, 80}"]
        .map(|list| format!("Permission denied: port 1 not in listen allowlist ({list})"));
    assert!(either.contains(&err), "{err}");
    assert_eq!(err, format!("Permission denied: port 1 not in listen allowlist ({:?})", lp.ports));
    assert_eq!(lp.clone(), lp);
    assert_eq!(
        ListenPorts::from_ports(&[]).check(1).unwrap_err(),
        "Permission denied: port 1 not in listen allowlist ({})"
    );
}

// -- net_* tools --------------------------------------------------------------

/// A host on which every operation succeeds.
fn perform(op: &NetOp) -> NetEvent {
    match op {
        NetOp::Accept { .. } => NetEvent::Accepted(Some(endpoint("10.1.1.1:9"))),
        NetOp::Send { data, .. } | NetOp::SendTo { data, .. } => NetEvent::Sent(data.len() as u64),
        NetOp::Recv { .. } => NetEvent::Received(b"ping".to_vec(), None),
        NetOp::RecvFrom { .. } => {
            NetEvent::Received(b"pong".to_vec(), Some(endpoint("10.1.1.2:53")))
        }
        NetOp::GetFlag { .. } => NetEvent::Flag(true),
        NetOp::PeerName { .. } => NetEvent::Name(None),
        NetOp::SockName { .. } => NetEvent::Name(Some(endpoint("10.1.1.3:80"))),
        _ => NetEvent::Done,
    }
}

fn run(host: &mut NetHost, tool: NetTool, args: &Value) -> Result<Value, String> {
    let mut step = host.start(tool, args);
    loop {
        step = match step {
            NetStep::Reply(r) => return r,
            NetStep::Parse(call) => {
                let text = call.address_text().to_string();
                let parsed = if text.chars().all(|c| c == '.' || c.is_ascii_digit()) {
                    Ok(address(&text))
                } else {
                    Err("invalid IP address syntax".to_string())
                };
                host.with_address(call, parsed)
            }
            NetStep::Check(call, to) => {
                let mut answers = Vec::new();
                while host.policy.next_lookup(to.address.ip, &answers).is_some() {
                    answers.push(None);
                }
                host.with_answers(call, to, &answers, &[])
            }
            NetStep::Act(op) => {
                let event = perform(&op);
                return host.finish(op, event).0;
            }
        };
    }
}

/// A JSON text with its members in the order in which they are written.
fn canonical(text: &str) -> String {
    serde_json::from_str::<Value>(text).unwrap().to_string()
}

struct Guest {
    tools: ToolRegistry<Handler>,
    host: Option<NetHost>,
}

impl Guest {
    fn new(policy: Option<NetworkPolicy>, ports: Option<ListenPorts>) -> Guest {
        Guest {
            tools: sandbox_tools(None, false, policy.is_some()),
            host: policy.map(|p| NetHost::new(p, ports)),
        }
    }

    fn dispatch(&mut self, request: &[u8]) -> String {
        let bytes = match self.tools.dispatch(request) {
            Dispatch::Reply(b) => b,
            Dispatch::Pending(Builtin::Net(tool), args) => {
                encode_reply(run(self.host.as_mut().unwrap(), tool, &args))
            }
            Dispatch::Pending(Builtin::Sleep, args) => {
                assert_eq!(hyperlight_unikraft::registry::sleep_ns(&args), 0);
                encode_reply(hyperlight_unikraft::registry::empty_result())
            }
            Dispatch::Pending(other, _) => panic!("{other:?}"),
        };
        String::from_utf8(bytes).unwrap()
    }
}

#[test]
fn net_tools_registered_with_blocklist() {
    let mut guest = Guest::new(Some(block("1.2.3.4")), None);
    let req = br#"{"name":"net_socket","args":{"family":2,"type":1}}"#;
    let s = guest.dispatch(req);
    assert!(s.contains("\"fd\""), "net_socket should work: {s}");
}

#[test]
fn net_tools_not_registered_without_policy() {
    let mut guest = Guest::new(None, None);
    let req = br#"{"name":"net_socket","args":{"family":2,"type":1}}"#;
    let s = guest.dispatch(req);
    assert!(s.contains("\"error\""), "net_socket should not exist: {s}");
    assert_eq!(s, r#"{"error":"unknown tool: net_socket"}"#);
}

#[test]
fn net_tools_registered_with_allow_all() {
    let mut guest = Guest::new(Some(NetworkPolicy::AllowAll), None);
    let req = br#"{"name":"net_socket","args":{"family":2,"type":1}}"#;
    let s = guest.dispatch(req);
    assert!(s.contains("\"fd\""), "net_socket should work: {s}");
}

#[test]
fn net_bind_denied_without_listen_ports() {
    let mut guest = Guest::new(Some(NetworkPolicy::AllowAll), None);
    // Create a socket first
    let req = br#"{"name":"net_socket","args":{"family":2,"type":1}}"#;
    let s = guest.dispatch(req);
    assert!(s.contains("\"fd\""), "net_socket should work: {s}");
    // Try to bind — should fail because no listen_ports
    let req = br#"{"name":"net_bind","args":{"fd":0,"addr":"127.0.0.1","port":8080}}"#;
    let s = guest.dispatch(req);
    assert!(s.contains("\"error\""), "net_bind should be denied: {s}");
    assert!(s.contains("no --port"), "{s}");
}

#[test]
fn net_bind_allowed_with_matching_port() {
    let lp = ListenPorts::from_ports(&[8080]);
    let mut guest = Guest::new(Some(NetworkPolicy::AllowAll), Some(lp));
    let req = br#"{"name":"net_socket","args":{"family":2,"type":1}}"#;
    let s = guest.dispatch(req);
    assert!(s.contains("\"fd\""), "net_socket should work: {s}");
    let v: Value = serde_json::from_str(&s).unwrap();
    let fd = v["result"]["fd"].as_u64().unwrap();
    let req =
        format!(r#"{{"name":"net_bind","args":{{"fd":{fd},"addr":"127.0.0.1","port":8080}}}}"#);
    let s = guest.dispatch(req.as_bytes());
    assert!(!s.contains("\"error\""), "net_bind should succeed: {s}");
}

#[test]
fn net_bind_denied_with_wrong_port() {
    let lp = ListenPorts::from_ports(&[8080]);
    let mut guest = Guest::new(Some(NetworkPolicy::AllowAll), Some(lp));
    let req = br#"{"name":"net_socket","args":{"family":2,"type":1}}"#;
    let v: Value = serde_json::from_str(&guest.dispatch(req)).unwrap();
    let fd = v["result"]["fd"].as_u64().unwrap();
    let req =
        format!(r#"{{"name":"net_bind","args":{{"fd":{fd},"addr":"127.0.0.1","port":9090}}}}"#);
    let s = guest.dispatch(req.as_bytes());
    assert!(s.contains("\"error\""), "net_bind should be denied: {s}");
    assert!(s.contains("Permission denied"), "{s}");
}

#[test]
fn test_sleep_capped() {
    assert_eq!(MAX_SLEEP_NS, 60_000_000_000);
    let mut guest = Guest::new(None, None);
    let req = br#"{"name":"__hl_sleep","args":{"ns":0}}"#;
    let s = guest.dispatch(req);
    assert!(!s.contains("\"error\""), "sleep(0) should succeed: {s}");
}

#[test]
fn net_getsockopt_returns_correct_type_for_dgram() {
    let mut guest = Guest::new(Some(NetworkPolicy::AllowAll), None);
    let req = br#"{"name":"net_socket","args":{"family":2,"type":2}}"#;
    let resp = guest.dispatch(req);
    let v: Value = serde_json::from_str(&resp).unwrap();
    let fd = v["result"]["fd"].as_u64().unwrap();
    let req = format!(r#"{{"name":"net_getsockopt","args":{{"fd":{fd},"level":1,"optname":3}}}}"#);
    let resp = guest.dispatch(req.as_bytes());
    let v: Value = serde_json::from_str(&resp).unwrap();
    assert_eq!(
        v["result"]["value"], 2,
        "SO_TYPE should return 2 (DGRAM), got: {resp}"
    );
}

#[test]
fn net_calls_from_socket_to_close() {
    let mut guest = Guest::new(
        Some(NetworkPolicy::AllowAll),
        Some(ListenPorts::from_ports(&[80])),
    );
    let mut go = |req: &str| guest.dispatch(req.as_bytes());
    assert_eq!(go(r#"{"name":"net_socket"}"#), r#"{"result":{"fd":1}}"#);
    assert_eq!(
        go(r#"{"name":"net_connect","args":{"fd":1,"addr":"1.2.3.4","port":80}}"#),
        r#"{"result":{}}"#
    );
    assert_eq!(
        go(r#"{"name":"net_listen","args":{"fd":1}}"#),
        r#"{"result":{}}"#
    );
    assert_eq!(
        go(r#"{"name":"net_accept","args":{"fd":1}}"#),
        canonical(r#"{"result":{"fd":2,"addr":"10.1.1.1","port":9}}"#)
    );
    assert_eq!(
        go(r#"{"name":"net_send","args":{"fd":2,"data":"YWJj"}}"#),
        r#"{"result":{"sent":3}}"#
    );
    assert_eq!(
        go(r#"{"name":"net_sendto","args":{"fd":2,"data":"YWI=","addr":"1.1.1.1"}}"#),
        r#"{"result":{"sent":2}}"#
    );
    assert_eq!(
        go(r#"{"name":"net_recv","args":{"fd":2}}"#),
        canonical(r#"{"result":{"data":"cGluZw==","len":4}}"#)
    );
    assert_eq!(
        go(r#"{"name":"net_recvfrom","args":{"fd":2,"len":10}}"#),
        canonical(r#"{"result":{"data":"cG9uZw==","len":4,"addr":"10.1.1.2","port":53}}"#)
    );
    assert_eq!(
        go(r#"{"name":"net_getpeername","args":{"fd":2}}"#),
        canonical(r#"{"result":{"addr":"0.0.0.0","port":0}}"#)
    );
    assert_eq!(
        go(r#"{"name":"net_getsockname","args":{"fd":2}}"#),
        canonical(r#"{"result":{"family":2,"addr":"10.1.1.3","port":80}}"#)
    );
    assert_eq!(
        go(r#"{"name":"net_setsockopt","args":{"fd":2,"level":1,"optname":2,"value":1}}"#),
        r#"{"result":{}}"#
    );
    assert_eq!(
        go(r#"{"name":"net_setsockopt","args":{"fd":2,"level":1,"optname":20,"value":1}}"#),
        r#"{"result":{}}"#
    );
    assert_eq!(
        go(r#"{"name":"net_getsockopt","args":{"fd":2,"level":6,"optname":1}}"#),
        r#"{"result":{"value":1}}"#
    );
    // An accepted socket has the type of the one that listened.
    assert_eq!(
        go(r#"{"name":"net_getsockopt","args":{"fd":2,"level":1,"optname":3}}"#),
        r#"{"result":{"value":1}}"#
    );
    assert_eq!(
        go(r#"{"name":"net_getsockopt","args":{"fd":2,"level":9,"optname":9}}"#),
        r#"{"result":{"value":0}}"#
    );
    assert_eq!(
        go(r#"{"name":"net_shutdown","args":{"fd":2,"how":1}}"#),
        r#"{"result":{}}"#
    );
    assert_eq!(go(r#"{"name":"net_close","args":{"fd":2}}"#), r#"{"result":{}}"#);
    assert_eq!(
        go(r#"{"name":"net_close","args":{"fd":2}}"#),
        r#"{"error":"bad_fd: 2"}"#
    );
    // Descriptors are not used again.
    assert_eq!(go(r#"{"name":"net_socket"}"#), r#"{"result":{"fd":3}}"#);
}

#[test]
fn net_calls_in_error() {
    let mut guest = Guest::new(Some(allow("1.2.3.4")), Some(ListenPorts::from_ports(&[80])));
    let cases = [
        (r#"{"name":"net_socket","args":{"family":7,"type":9}}"#, "InvalidInput: unsupported family 7"),
        (r#"{"name":"net_socket","args":{"family":10,"type":-3}}"#, "InvalidInput: unsupported type -3"),
        (r#"{"name":"net_connect","args":{"addr":"1.2.3.4"}}"#, "missing 'fd'"),
        (r#"{"name":"net_connect","args":{"fd":1}}"#, "missing 'addr'"),
        (r#"{"name":"net_connect","args":{"fd":1,"addr":"host"}}"#, "bad addr: invalid IP address syntax"),
        (r#"{"name":"net_connect","args":{"fd":1,"addr":"9.9.9.9","port":80}}"#, "network policy denies connection to 9.9.9.9:80"),
        (r#"{"name":"net_connect","args":{"fd":1,"addr":"1.2.3.4"}}"#, "bad_fd: 1"),
        (r#"{"name":"net_bind","args":{"fd":1,"addr":"0.0.0.0","port":80}}"#, "bad_fd: 1"),
        (r#"{"name":"net_bind","args":{"fd":1,"addr":"0.0.0.0","port":65616}}"#, "bad_fd: 1"),
        (r#"{"name":"net_send","args":{"fd":1}}"#, "missing 'data'"),
        (r#"{"name":"net_send","args":{"fd":1,"data":"?"}}"#, "base64 decode: Invalid symbol 63, offset 0."),
        (r#"{"name":"net_sendto","args":{"fd":1,"data":""}}"#, "missing 'addr'"),
        (r#"{"name":"net_sendto","args":{"fd":1,"data":"","addr":"8.8.8.8","port":53}}"#, "network policy denies connection to 8.8.8.8:53"),
        (r#"{"name":"net_recv","args":{"fd":-1}}"#, "missing 'fd'"),
        (r#"{"name":"net_recvfrom","args":{"fd":5}}"#, "bad_fd: 5"),
        (r#"{"name":"net_listen","args":{"fd":5}}"#, "bad_fd: 5"),
        (r#"{"name":"net_setsockopt","args":{"fd":5}}"#, "bad_fd: 5"),
        (r#"{"name":"net_getsockopt","args":{"fd":5,"level":1,"optname":3}}"#, "bad_fd: 5"),
    ];
    for (req, expected) in cases {
        let s = guest.dispatch(req.as_bytes());
        assert_eq!(s, format!(r#"{{"error":"{expected}"}}"#), "{req}");
    }
}

#[test]
fn net_operations_carry_their_arguments() {
    let mut host = NetHost::new(NetworkPolicy::AllowAll, None);
    let args = |s: &str| -> Value { serde_json::from_str(s).unwrap() };
    let step = host.start(
        NetTool::Socket,
        &args(r#"{"family":10,"type":2,"protocol":17}"#),
    );
    let NetStep::Act(op) = step else { panic!() };
    assert_eq!(op, NetOp::Open { v6: true, sock_type: 2, protocol: Some(17) });
    // A failed operation opens nothing.
    let (reply, fd) = host.finish(op, NetEvent::Failed("no more".to_string()));
    assert_eq!((reply.unwrap_err().as_str(), fd), ("no more", None));
    let NetStep::Act(op) = host.start(NetTool::Socket, &args("{}")) else { panic!() };
    assert_eq!(op, NetOp::Open { v6: false, sock_type: 1, protocol: None });
    assert_eq!(host.finish(op, NetEvent::Done).1, Some(1));
    let NetStep::Act(op) = host.start(NetTool::Listen, &args(r#"{"fd":1}"#)) else { panic!() };
    assert_eq!(op, NetOp::Listen { fd: 1, backlog: 128 });
    let NetStep::Act(op) = host.start(NetTool::Recv, &args(r#"{"fd":1,"len":99999999}"#)) else {
        panic!()
    };
    assert_eq!(op, NetOp::Recv { fd: 1, len: 65536 });
}
