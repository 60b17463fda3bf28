//! Tool dispatch: host functions callable from the guest.
//!
//! A request is `{"name": "...", "args": <value>}`; the response is either
//! `{"result": <value>}` or `{"error": "<msg>"}`.

use crate::fs_error;
use crate::fs_error::normalize_fs_error;
use crate::fs_tools::FsTool;
use crate::json;
use crate::json::{
    get_member, json_bytes, null_value, object_value, parse_json, set_member, signed_field,
    string_value, text_field, unsigned_field, JsonData,
};
use crate::net_tools::NetTool;
use crate::path::copy_bytes;
use crate::text::{owned, same_text};
use serde_json::Value;
use vstd::prelude::*;
use vstd::string::*;

verus! {

/// Cap for the duration of a sleep, so that a guest cannot block the host without
/// bound (60 s).
pub const MAX_SLEEP_NS: u64 = 60_000_000_000;

// ---------------------------------------------------------------------------
// Replies
// ---------------------------------------------------------------------------

/// The value that is sent back for the result of a call. Error texts are sent in
/// their canonical wording.
pub open spec fn reply_data(r: Result<JsonData, Seq<char>>) -> JsonData {
    match r {
        Ok(d) => json::one_member("result"@, d),
        Err(m) => json::one_member("error"@, JsonData::Str(fs_error::normalized(m))),
    }
}

/// `bytes` are what is sent back for the result `r` of a call: the JSON text of its
/// reply. A reader gets the reply back, unless it holds fractions or is nested more
/// deeply than a reader follows.
pub open spec fn is_reply(bytes: Seq<u8>, r: Result<JsonData, Seq<char>>) -> bool {
    &&& exists|v: Value| bytes == #[trigger] json::json_text(v) && json::data(v) == reply_data(r)
    &&& json::is_shallow(reply_data(r), 100) ==> json::parsed_json(bytes) == Ok::<
        JsonData,
        Seq<char>,
    >(reply_data(r))
}

/// Encode the result of a call as JSON bytes.
pub fn encode_reply(result: Result<Value, String>) -> (r: Vec<u8>)
    ensures
        is_reply(r@, json::result_data(result)),
{
    let mut reply = object_value();
    match result {
        Ok(v) => {
            set_member(&mut reply, "result", v);
        },
        Err(m) => {
            set_member(
                &mut reply,
                "error",
                string_value(normalize_fs_error(m.as_str()).as_str()),
            );
        },
    }
    match json_bytes(&reply) {
        Some(bytes) => bytes,
        None => copy_bytes("{\"error\":\"serialization failed\"}".as_bytes()),
    }
}

// ---------------------------------------------------------------------------
// The registry
// ---------------------------------------------------------------------------

/// The tools that every sandbox can offer itself.
#[derive(Debug, Clone, Copy, PartialEq, Eq, Structural)]
pub enum Builtin {
    /// The guest reports its exit code.
    Exit,
    /// The guest sleeps.
    Sleep,
    /// A networking tool.
    Net(NetTool),
    /// A file tool.
    Fs(FsTool),
}

/// A tool handler: one that the caller supplied, or one of the sandbox's own.
#[derive(Debug)]
pub enum Tool<F> {
    User(F),
    Builtin(Builtin),
}

/// Registry of tool handlers callable from the guest.
#[derive(Debug)]
pub struct ToolRegistry<F> {
    pub tools: Vec<(String, Tool<F>)>,
}

/// The tool of this name.
pub open spec fn tool_named<F>(tools: Seq<(String, Tool<F>)>, name: Seq<char>) -> Option<Tool<F>>
    decreases tools.len(),
{
    if tools.len() == 0 {
        None
    } else if tools.last().0@ == name {
        Some(tools.last().1)
    } else {
        tool_named(tools.drop_last(), name)
    }
}

proof fn lemma_no_such_tool<F>(tools: Seq<(String, Tool<F>)>, name: Seq<char>)
    requires
        forall|j: int| 0 <= j < tools.len() ==> (#[trigger] tools[j]).0@ != name,
    ensures
        tool_named(tools, name) is None,
    decreases tools.len(),
{
    if tools.len() > 0 {
        assert forall|j: int| 0 <= j < tools.drop_last().len() implies (
        #[trigger] tools.drop_last()[j]).0@ != name by {
            assert(tools.drop_last()[j] == tools[j]);
        }
        lemma_no_such_tool(tools.drop_last(), name);
    }
}

proof fn lemma_tool_at<F>(tools: Seq<(String, Tool<F>)>, i: int, name: Seq<char>)
    requires
        0 <= i < tools.len(),
        tools[i].0@ == name,
        forall|j: int| i < j < tools.len() ==> (#[trigger] tools[j]).0@ != name,
    ensures
        tool_named(tools, name) == Some(tools[i].1),
    decreases tools.len(),
{
    if i < tools.len() - 1 {
        let front = tools.drop_last();
        assert(front[i] == tools[i]);
        assert forall|j: int| i < j < front.len() implies (#[trigger] front[j]).0@ != name by {
            assert(front[j] == tools[j]);
        }
        assert(tools[tools.len() - 1].0@ != name);
        lemma_tool_at(front, i, name);
    }
}

proof fn lemma_other_tool<F>(
    tools: Seq<(String, Tool<F>)>,
    i: int,
    entry: (String, Tool<F>),
    name: Seq<char>,
)
    requires
        0 <= i < tools.len(),
        tools[i].0@ != name,
        entry.0@ != name,
    ensures
        tool_named(tools.update(i, entry), name) == tool_named(tools, name),
    decreases tools.len(),
{
    let now = tools.update(i, entry);
    if i < tools.len() - 1 {
        assert(now.drop_last() =~= tools.drop_last().update(i, entry));
        assert(now.last() == tools.last());
        lemma_other_tool(tools.drop_last(), i, entry, name);
    } else {
        assert(now.drop_last() =~= tools.drop_last());
    }
}

impl<F> Default for ToolRegistry<F> {
    fn default() -> (r: Self)
        ensures
            forall|n: Seq<char>| #[trigger] r.tool(n) is None,
    {
        ToolRegistry::new()
    }
}

impl<F> ToolRegistry<F> {
    /// The tool of this name.
    pub open spec fn tool(&self, name: Seq<char>) -> Option<Tool<F>> {
        tool_named(self.tools@, name)
    }

    /// Create an empty registry.
    pub fn new() -> (r: ToolRegistry<F>)
        ensures
            forall|n: Seq<char>| #[trigger] r.tool(n) is None,
    {
        ToolRegistry { tools: Vec::new() }
    }

    /// Put a tool under a name. It replaces the one that had the name before.
    pub fn put(&mut self, name: &str, tool: Tool<F>)
        ensures
            forall|n: Seq<char>|
                #[trigger] final(self).tool(n) == if n == name@ {
                    Some(tool)
                } else {
                    old(self).tool(n)
                },
    {
        let ghost before = self.tools@;
        let total: usize = self.tools.len();
        let mut k: usize = total;
        while k > 0
            invariant
                total == before.len(),
                self.tools@ == before,
                before == old(self).tools@,
                k <= total,
                forall|j: int| k <= j < before.len() ==> (#[trigger] before[j]).0@ != name@,
            decreases k,
        {
            let i: usize = k - 1;
            if same_text(self.tools[i].0.as_str(), name) {
                let entry = (owned(name), tool);
                self.tools.set(i, entry);
                proof {
                    let now = self.tools@;
                    assert(now =~= before.update(i as int, entry));
                    assert forall|n: Seq<char>| #[trigger]
                        self.tool(n) == if n == name@ {
                            Some(tool)
                        } else {
                            old(self).tool(n)
                        } by {
                        if n == name@ {
                            assert forall|j: int| i < j < now.len() implies (
                            #[trigger] now[j]).0@ != name@ by {
                                assert(now[j] == before[j]);
                            }
                            lemma_tool_at(now, i as int, name@);
                        } else {
                            lemma_other_tool(before, i as int, entry, n);
                        }
                    }
                }
                return ;
            }
            k = i;
        }
        self.tools.push((owned(name), tool));
        assert(self.tools@.drop_last() =~= before);
    }

    /// Register a named handler. The handler receives the `args` that the guest
    /// sent and returns the value that becomes the `{"result": ...}` portion of
    /// the response. Errors returned by the handler become `{"error": "..."}`.
    pub fn register(&mut self, name: &str, handler: F)
        ensures
            forall|n: Seq<char>|
                #[trigger] final(self).tool(n) == if n == name@ {
                    Some(Tool::User(handler))
                } else {
                    old(self).tool(n)
                },
    {
        self.put(name, Tool::User(handler));
    }

    /// The tool of this name.
    pub fn get(&self, name: &str) -> (r: Option<&Tool<F>>)
        ensures
            match r {
                Some(t) => self.tool(name@) == Some(*t),
                None => self.tool(name@) is None,
            },
    {
        let total: usize = self.tools.len();
        let mut k: usize = total;
        while k > 0
            invariant
                total == self.tools@.len(),
                k <= total,
                forall|j: int|
                    k <= j < self.tools@.len() ==> (#[trigger] self.tools@[j]).0@ != name@,
            decreases k,
        {
            let i: usize = k - 1;
            if same_text(self.tools[i].0.as_str(), name) {
                proof {
                    lemma_tool_at(self.tools@, i as int, name@);
                }
                return Some(&self.tools[i].1);
            }
            k = i;
        }
        proof {
            lemma_no_such_tool(self.tools@, name@);
        }
        None
    }
}

// ---------------------------------------------------------------------------
// Dispatch
// ---------------------------------------------------------------------------

/// What came of a request.
#[derive(Debug)]
pub enum Dispatch {
    /// The response is ready.
    Reply(Vec<u8>),
    /// The sandbox's own tool is to be run on these arguments, and its result
    /// encoded by `encode_reply`.
    Pending(Builtin, Value),
}

/// `out` is the response for the result `r` of a call.
pub open spec fn responds(out: Dispatch, r: Result<JsonData, Seq<char>>) -> bool {
    out matches Dispatch::Reply(b) && is_reply(b@, r)
}

/// The arguments in a request, or null where it has none.
pub open spec fn args_in(d: JsonData) -> JsonData {
    match json::member(d, "args"@) {
        Some(a) => a,
        None => JsonData::Null,
    }
}

/// `out` is what came of running `tool` on arguments that hold `args`.
pub open spec fn runs<F: Fn(Value) -> Result<Value, String>>(
    tool: Tool<F>,
    args: JsonData,
    out: Dispatch,
) -> bool {
    match tool {
        Tool::User(f) => exists|v: Value, result: Result<Value, String>|
            json::data(v) == args && #[trigger] call_ensures(f, (v,), result) && responds(
                out,
                json::result_data(result),
            ),
        Tool::Builtin(b) => out matches Dispatch::Pending(t, v) && t == b && json::data(v) == args,
    }
}

impl<F: Fn(Value) -> Result<Value, String>> ToolRegistry<F> {
    /// `out` is what came of the request in `payload`.
    pub open spec fn dispatches(&self, payload: Seq<u8>, out: Dispatch) -> bool {
        match json::parsed_json(payload) {
            Err(m) => responds(out, Err(m)),
            Ok(d) => match json::text_member(d, "name"@) {
                None => responds(out, Err("missing 'name'"@)),
                Some(name) => match self.tool(name) {
                    None => responds(out, Err("unknown tool: "@ + name)),
                    Some(tool) => runs(tool, args_in(d), out),
                },
            },
        }
    }

    /// Decode a request, look up the handler by name, invoke it, and encode the
    /// response. Unknown tool names and JSON errors both become error responses.
    pub fn dispatch(&self, payload: &[u8]) -> (r: Dispatch)
        requires
            forall|f: F, v: Value| #[trigger] call_requires(f, (v,)),
        ensures
            self.dispatches(payload@, r),
    {
        let request = match parse_json(payload) {
            Ok(v) => v,
            Err(m) => {
                return Dispatch::Reply(encode_reply(Err(m)));
            },
        };
        let name = match text_field(&request, "name") {
            Some(name) => name,
            None => {
                return Dispatch::Reply(encode_reply(Err(owned("missing 'name'"))));
            },
        };
        let args = match get_member(&request, "args") {
            Some(a) => a.clone(),
            None => null_value(),
        };
        match self.get(name) {
            None => {
                let mut out = owned("unknown tool: ");
                out.append(name);
                Dispatch::Reply(encode_reply(Err(out)))
            },
            Some(Tool::Builtin(b)) => Dispatch::Pending(*b, args),
            Some(Tool::User(f)) => {
                let ghost given = args;
                let result = f(args);
                assert(call_ensures(f, (given,), result));
                Dispatch::Reply(encode_reply(result))
            },
        }
    }
}

// ---------------------------------------------------------------------------
// The sandbox's own tools
// ---------------------------------------------------------------------------

/// The networking tool of this name.
pub open spec fn net_tool_named(name: Seq<char>) -> Option<NetTool> {
    if name == NetTool::Socket.called() {
        Some(NetTool::Socket)
    } else if name == NetTool::Connect.called() {
        Some(NetTool::Connect)
    } else if name == NetTool::Bind.called() {
        Some(NetTool::Bind)
    } else if name == NetTool::Listen.called() {
        Some(NetTool::Listen)
    } else if name == NetTool::Accept.called() {
        Some(NetTool::Accept)
    } else if name == NetTool::Send.called() {
        Some(NetTool::Send)
    } else if name == NetTool::SendTo.called() {
        Some(NetTool::SendTo)
    } else if name == NetTool::Recv.called() {
        Some(NetTool::Recv)
    } else if name == NetTool::RecvFrom.called() {
        Some(NetTool::RecvFrom)
    } else if name == NetTool::Close.called() {
        Some(NetTool::Close)
    } else if name == NetTool::Shutdown.called() {
        Some(NetTool::Shutdown)
    } else if name == NetTool::SetSockOpt.called() {
        Some(NetTool::SetSockOpt)
    } else if name == NetTool::GetSockOpt.called() {
        Some(NetTool::GetSockOpt)
    } else if name == NetTool::GetPeerName.called() {
        Some(NetTool::GetPeerName)
    } else if name == NetTool::GetSockName.called() {
        Some(NetTool::GetSockName)
    } else {
        None
    }
}

/// The file tool of this name.
pub open spec fn fs_tool_named(name: Seq<char>) -> Option<FsTool> {
    if name == FsTool::Read.called() {
        Some(FsTool::Read)
    } else if name == FsTool::Write.called() {
        Some(FsTool::Write)
    } else if name == FsTool::List.called() {
        Some(FsTool::List)
    } else if name == FsTool::Stat.called() {
        Some(FsTool::Stat)
    } else if name == FsTool::ReadBytes.called() {
        Some(FsTool::ReadBytes)
    } else if name == FsTool::WriteBytes.called() {
        Some(FsTool::WriteBytes)
    } else if name == FsTool::Truncate.called() {
        Some(FsTool::Truncate)
    } else if name == FsTool::Mkdir.called() {
        Some(FsTool::Mkdir)
    } else if name == FsTool::Unlink.called() {
        Some(FsTool::Unlink)
    } else {
        None
    }
}

/// The tool of this name among those that every sandbox has.
pub open spec fn internal_tool_named(name: Seq<char>) -> Option<Builtin> {
    if name == "__hl_exit"@ {
        Some(Builtin::Exit)
    } else if name == "__hl_sleep"@ {
        Some(Builtin::Sleep)
    } else {
        None
    }
}

impl<F> ToolRegistry<F> {
    /// Register the file tools.
    pub fn register_fs_tools(&mut self)
        ensures
            forall|n: Seq<char>|
                #[trigger] final(self).tool(n) == match fs_tool_named(n) {
                    Some(t) => Some(Tool::Builtin(Builtin::Fs(t))),
                    None => old(self).tool(n),
                },
    {
        self.put(FsTool::Unlink.name(), Tool::Builtin(Builtin::Fs(FsTool::Unlink)));
        self.put(FsTool::Mkdir.name(), Tool::Builtin(Builtin::Fs(FsTool::Mkdir)));
        self.put(FsTool::Truncate.name(), Tool::Builtin(Builtin::Fs(FsTool::Truncate)));
        self.put(FsTool::WriteBytes.name(), Tool::Builtin(Builtin::Fs(FsTool::WriteBytes)));
        self.put(FsTool::ReadBytes.name(), Tool::Builtin(Builtin::Fs(FsTool::ReadBytes)));
        self.put(FsTool::Stat.name(), Tool::Builtin(Builtin::Fs(FsTool::Stat)));
        self.put(FsTool::List.name(), Tool::Builtin(Builtin::Fs(FsTool::List)));
        self.put(FsTool::Write.name(), Tool::Builtin(Builtin::Fs(FsTool::Write)));
        self.put(FsTool::Read.name(), Tool::Builtin(Builtin::Fs(FsTool::Read)));
    }

    /// Register the networking tools.
    pub fn register_net_tools(&mut self)
        ensures
            forall|n: Seq<char>|
                #[trigger] final(self).tool(n) == match net_tool_named(n) {
                    Some(t) => Some(Tool::Builtin(Builtin::Net(t))),
                    None => old(self).tool(n),
                },
    {
        self.put(NetTool::GetSockName.name(), Tool::Builtin(Builtin::Net(NetTool::GetSockName)));
        self.put(NetTool::GetPeerName.name(), Tool::Builtin(Builtin::Net(NetTool::GetPeerName)));
        self.put(NetTool::GetSockOpt.name(), Tool::Builtin(Builtin::Net(NetTool::GetSockOpt)));
        self.put(NetTool::SetSockOpt.name(), Tool::Builtin(Builtin::Net(NetTool::SetSockOpt)));
        self.put(NetTool::Shutdown.name(), Tool::Builtin(Builtin::Net(NetTool::Shutdown)));
        self.put(NetTool::Close.name(), Tool::Builtin(Builtin::Net(NetTool::Close)));
        self.put(NetTool::RecvFrom.name(), Tool::Builtin(Builtin::Net(NetTool::RecvFrom)));
        self.put(NetTool::Recv.name(), Tool::Builtin(Builtin::Net(NetTool::Recv)));
        self.put(NetTool::SendTo.name(), Tool::Builtin(Builtin::Net(NetTool::SendTo)));
        self.put(NetTool::Send.name(), Tool::Builtin(Builtin::Net(NetTool::Send)));
        self.put(NetTool::Accept.name(), Tool::Builtin(Builtin::Net(NetTool::Accept)));
        self.put(NetTool::Listen.name(), Tool::Builtin(Builtin::Net(NetTool::Listen)));
        self.put(NetTool::Bind.name(), Tool::Builtin(Builtin::Net(NetTool::Bind)));
        self.put(NetTool::Connect.name(), Tool::Builtin(Builtin::Net(NetTool::Connect)));
        self.put(NetTool::Socket.name(), Tool::Builtin(Builtin::Net(NetTool::Socket)));
    }

    /// Register the tools that are always present, whatever else there is. The
    /// networking tools are registered only where a network policy is given.
    pub fn register_internal_tools(&mut self, network: bool)
        ensures
            forall|n: Seq<char>|
                #[trigger] final(self).tool(n) == if network && net_tool_named(n) is Some {
                    Some(Tool::Builtin(Builtin::Net(net_tool_named(n)->0)))
                } else {
                    match internal_tool_named(n) {
                        Some(t) => Some(Tool::Builtin(t)),
                        None => old(self).tool(n),
                    }
                },
    {
        self.put("__hl_sleep", Tool::Builtin(Builtin::Sleep));
        self.put("__hl_exit", Tool::Builtin(Builtin::Exit));
        if network {
            self.register_net_tools();
        }
    }
}

/// Assemble the tools from those that the caller supplied and, where there are
/// mounts, the file tools.
pub fn build_tools<F>(user_tools: Option<ToolRegistry<F>>, mounts: bool) -> (r: Option<
    ToolRegistry<F>,
>)
    ensures
        !mounts ==> r == user_tools,
        mounts ==> r is Some && forall|n: Seq<char>|
            #[trigger] (r->0).tool(n) == match fs_tool_named(n) {
                Some(t) => Some(Tool::Builtin(Builtin::Fs(t))),
                None => user_tool(user_tools, n),
            },
{
    if !mounts {
        return user_tools;
    }
    let mut registry = match user_tools {
        Some(tools) => tools,
        None => ToolRegistry::new(),
    };
    assert forall|n: Seq<char>| #[trigger] registry.tool(n) == user_tool(user_tools, n) by {}
    registry.register_fs_tools();
    Some(registry)
}

/// The tool of this name that the caller supplied.
pub open spec fn user_tool<F>(user_tools: Option<ToolRegistry<F>>, name: Seq<char>) -> Option<
    Tool<F>,
> {
    match user_tools {
        Some(tools) => tools.tool(name),
        None => None,
    }
}

/// The tool of this name in a sandbox with these tools of the caller.
pub open spec fn sandbox_tool<F>(
    user_tools: Option<ToolRegistry<F>>,
    mounts: bool,
    network: bool,
    name: Seq<char>,
) -> Option<Tool<F>> {
    if network && net_tool_named(name) is Some {
        Some(Tool::Builtin(Builtin::Net(net_tool_named(name)->0)))
    } else if internal_tool_named(name) is Some {
        Some(Tool::Builtin(internal_tool_named(name)->0))
    } else if mounts && fs_tool_named(name) is Some {
        Some(Tool::Builtin(Builtin::Fs(fs_tool_named(name)->0)))
    } else {
        user_tool(user_tools, name)
    }
}

/// All the tools of a sandbox: those of the caller, the file tools where there are
/// mounts, the ones that are always present, and the networking tools where there
/// is a network policy.
pub fn sandbox_tools<F>(user_tools: Option<ToolRegistry<F>>, mounts: bool, network: bool) -> (r:
    ToolRegistry<F>)
    ensures
        forall|n: Seq<char>|
            #[trigger] r.tool(n) == sandbox_tool(user_tools, mounts, network, n),
{
    let built = build_tools(user_tools, mounts);
    let mut registry = match built {
        Some(tools) => tools,
        None => ToolRegistry::new(),
    };
    let ghost before = registry;
    assert forall|n: Seq<char>| #[trigger]
        before.tool(n) == if mounts && fs_tool_named(n) is Some {
            Some(Tool::Builtin(Builtin::Fs(fs_tool_named(n)->0)))
        } else {
            user_tool(user_tools, n)
        } by {
        if !mounts {
            assert(built == user_tools);
        }
    }
    registry.register_internal_tools(network);
    assert forall|n: Seq<char>| #[trigger]
        registry.tool(n) == sandbox_tool(user_tools, mounts, network, n) by {
        assert(before.tool(n) == before.tool(n));
    }
    registry
}

/// The exit code that a guest reports, cut to 32 bits; 1 where it names none.
pub open spec fn reported_code(d: JsonData) -> i32 {
    json::signed_member(d, "code"@, 1) as i32
}

/// The exit code in the arguments of a report.
pub fn exit_code(args: &Value) -> (r: i32)
    ensures
        r == reported_code(json::data(*args)),
{
    let code: i64 = signed_field(args, "code", 1);
    #[verifier::truncate]
    (code as i32)
}

/// How long a guest sleeps, in nanoseconds: what it asks for, up to the cap.
pub open spec fn sleep_time(d: JsonData) -> u64 {
    match json::unsigned_member(d, "ns"@) {
        Some(n) => if n < MAX_SLEEP_NS {
            n
        } else {
            MAX_SLEEP_NS
        },
        None => 0,
    }
}

/// How long a guest sleeps, in nanoseconds.
pub fn sleep_ns(args: &Value) -> (r: u64)
    ensures
        r == sleep_time(json::data(*args)),
{
    match unsigned_field(args, "ns") {
        Some(n) => if n < MAX_SLEEP_NS {
            n
        } else {
            MAX_SLEEP_NS
        },
        None => 0,
    }
}

/// The result of a tool that has nothing to say.
pub fn empty_result() -> (r: Result<Value, String>)
    ensures
        json::result_data(r) == Ok::<JsonData, Seq<char>>(json::no_members()),
{
    Ok(object_value())
}

// ---------------------------------------------------------------------------
// Laws
// ---------------------------------------------------------------------------

/// Each networking tool is found under its name.
pub proof fn each_net_tool_answers_to_its_name(tool: NetTool)
    ensures
        net_tool_named(tool.called()) == Some(tool),
{
    reveal_strlit("net_socket");
    reveal_strlit("net_connect");
    reveal_strlit("net_bind");
    reveal_strlit("net_listen");
    reveal_strlit("net_accept");
    reveal_strlit("net_send");
    reveal_strlit("net_sendto");
    reveal_strlit("net_recv");
    reveal_strlit("net_recvfrom");
    reveal_strlit("net_close");
    reveal_strlit("net_shutdown");
    reveal_strlit("net_setsockopt");
    reveal_strlit("net_getsockopt");
    reveal_strlit("net_getpeername");
    reveal_strlit("net_getsockname");
    assert("net_socket"@.len() == 10 && "net_socket"@[4] == 's' && "net_socket"@[5] == 'o' && "net_socket"@[7] == 'k');
    assert("net_connect"@.len() == 11 && "net_connect"@[4] == 'c' && "net_connect"@[5] == 'o' && "net_connect"@[7] == 'n');
    assert("net_bind"@.len() == 8 && "net_bind"@[4] == 'b' && "net_bind"@[5] == 'i' && "net_bind"@[7] == 'd');
    assert("net_listen"@.len() == 10 && "net_listen"@[4] == 'l' && "net_listen"@[5] == 'i' && "net_listen"@[7] == 't');
    assert("net_accept"@.len() == 10 && "net_accept"@[4] == 'a' && "net_accept"@[5] == 'c' && "net_accept"@[7] == 'e');
    assert("net_send"@.len() == 8 && "net_send"@[4] == 's' && "net_send"@[5] == 'e' && "net_send"@[7] == 'd');
    assert("net_sendto"@.len() == 10 && "net_sendto"@[4] == 's' && "net_sendto"@[5] == 'e' && "net_sendto"@[7] == 'd');
    assert("net_recv"@.len() == 8 && "net_recv"@[4] == 'r' && "net_recv"@[5] == 'e' && "net_recv"@[7] == 'v');
    assert("net_recvfrom"@.len() == 12 && "net_recvfrom"@[4] == 'r' && "net_recvfrom"@[5] == 'e' && "net_recvfrom"@[7] == 'v');
    assert("net_close"@.len() == 9 && "net_close"@[4] == 'c' && "net_close"@[5] == 'l' && "net_close"@[7] == 's');
    assert("net_shutdown"@.len() == 12 && "net_shutdown"@[4] == 's' && "net_shutdown"@[5] == 'h' && "net_shutdown"@[7] == 't');
    assert("net_setsockopt"@.len() == 14 && "net_setsockopt"@[4] == 's' && "net_setsockopt"@[5] == 'e' && "net_setsockopt"@[7] == 's');
    assert("net_getsockopt"@.len() == 14 && "net_getsockopt"@[4] == 'g' && "net_getsockopt"@[5] == 'e' && "net_getsockopt"@[7] == 's');
    assert("net_getpeername"@.len() == 15 && "net_getpeername"@[4] == 'g' && "net_getpeername"@[5] == 'e' && "net_getpeername"@[7] == 'p');
    assert("net_getsockname"@.len() == 15 && "net_getsockname"@[4] == 'g' && "net_getsockname"@[5] == 'e' && "net_getsockname"@[7] == 's');
}

/// Each file tool is found under its name.
pub proof fn each_fs_tool_answers_to_its_name(tool: FsTool)
    ensures
        fs_tool_named(tool.called()) == Some(tool),
{
    reveal_strlit("fs_read");
    reveal_strlit("fs_write");
    reveal_strlit("fs_list");
    reveal_strlit("fs_stat");
    reveal_strlit("fs_read_bytes");
    reveal_strlit("fs_write_bytes");
    reveal_strlit("fs_truncate");
    reveal_strlit("fs_mkdir");
    reveal_strlit("fs_unlink");
    assert("fs_read"@.len() == 7 && "fs_read"@[3] == 'r');
    assert("fs_write"@.len() == 8 && "fs_write"@[3] == 'w');
    assert("fs_list"@.len() == 7 && "fs_list"@[3] == 'l');
    assert("fs_stat"@.len() == 7 && "fs_stat"@[3] == 's');
    assert("fs_read_bytes"@.len() == 13 && "fs_read_bytes"@[3] == 'r');
    assert("fs_write_bytes"@.len() == 14 && "fs_write_bytes"@[3] == 'w');
    assert("fs_truncate"@.len() == 11 && "fs_truncate"@[3] == 't');
    assert("fs_mkdir"@.len() == 8 && "fs_mkdir"@[3] == 'm');
    assert("fs_unlink"@.len() == 9 && "fs_unlink"@[3] == 'u');
}

/// The first letters of the names tell the tools apart.
proof fn lemma_first_letters()
    ensures
        forall|t: NetTool| (#[trigger] t.called()).len() > 0 && t.called()[0] == 'n',
        forall|t: FsTool| (#[trigger] t.called()).len() > 0 && t.called()[0] == 'f',
        "__hl_exit"@.len() == 9 && "__hl_exit"@[0] == '_',
        "__hl_sleep"@.len() == 10 && "__hl_sleep"@[0] == '_',
{
    reveal_strlit("net_socket");
    reveal_strlit("net_connect");
    reveal_strlit("net_bind");
    reveal_strlit("net_listen");
    reveal_strlit("net_accept");
    reveal_strlit("net_send");
    reveal_strlit("net_sendto");
    reveal_strlit("net_recv");
    reveal_strlit("net_recvfrom");
    reveal_strlit("net_close");
    reveal_strlit("net_shutdown");
    reveal_strlit("net_setsockopt");
    reveal_strlit("net_getsockopt");
    reveal_strlit("net_getpeername");
    reveal_strlit("net_getsockname");
    reveal_strlit("__hl_exit");
    reveal_strlit("__hl_sleep");
    reveal_strlit("fs_read");
    reveal_strlit("fs_write");
    reveal_strlit("fs_list");
    reveal_strlit("fs_stat");
    reveal_strlit("fs_read_bytes");
    reveal_strlit("fs_write_bytes");
    reveal_strlit("fs_truncate");
    reveal_strlit("fs_mkdir");
    reveal_strlit("fs_unlink");
}

/// Networking is off by default: without a policy a networking tool is there only
/// if the caller supplied one of that name.
pub proof fn no_networking_without_a_policy<F>(
    user_tools: Option<ToolRegistry<F>>,
    mounts: bool,
    tool: NetTool,
)
    ensures
        sandbox_tool(user_tools, mounts, false, tool.called()) == user_tool(
            user_tools,
            tool.called(),
        ),
{
    lemma_first_letters();
    assert(tool.called()[0] == 'n');
}

/// A caller cannot take the place of the tools that are always present.
pub proof fn internal_tools_are_always_there<F>(
    user_tools: Option<ToolRegistry<F>>,
    mounts: bool,
    network: bool,
)
    ensures
        sandbox_tool(user_tools, mounts, network, "__hl_exit"@) == Some(
            Tool::<F>::Builtin(Builtin::Exit),
        ),
        sandbox_tool(user_tools, mounts, network, "__hl_sleep"@) == Some(
            Tool::<F>::Builtin(Builtin::Sleep),
        ),
{
    lemma_first_letters();
}

/// However long a guest wants to sleep, it is never longer than the cap.
pub proof fn sleeps_are_capped(d: JsonData)
    ensures
        sleep_time(d) <= MAX_SLEEP_NS,
{
}

/// Every request gets a response that says one thing: the JSON text of an object
/// whose only member is `result` or `error`.
pub proof fn a_reply_has_one_member(r: Result<JsonData, Seq<char>>)
    ensures
        reply_data(r) matches JsonData::Object(m) && (m.dom() == set!["result"@] || m.dom()
            == set!["error"@]),
{
    match r {
        Ok(d) => {
            assert(reply_data(r)->Object_0.dom() =~= set!["result"@]);
        },
        Err(m) => {
            assert(reply_data(r)->Object_0.dom() =~= set!["error"@]);
        },
    }
}

/// An error response can always be read back: its bytes are the JSON text of the
/// canonical wording of the error.
pub proof fn an_error_reply_is_read_back(bytes: Seq<u8>, m: Seq<char>)
    requires
        is_reply(bytes, Err(m)),
    ensures
        json::parsed_json(bytes) == Ok::<JsonData, Seq<char>>(
            json::one_member("error"@, JsonData::Str(fs_error::normalized(m))),
        ),
{
    let d = reply_data(Err(m));
    assert forall|k: Seq<char>| d->Object_0.dom().contains(k) implies json::is_shallow(
        #[trigger] d->Object_0[k],
        99,
    ) by {}
    assert(json::is_shallow(d, 100));
}

/// The value that a call gave is sent back under `result`, and an error under `error`.
pub proof fn values_and_errors_are_told_apart(d: JsonData, m: Seq<char>)
    ensures
        reply_data(Ok(d)) == JsonData::Object(map!["result"@ => d]),
        reply_data(Err(m)) == JsonData::Object(
            map!["error"@ => JsonData::Str(fs_error::normalized(m))],
        ),
{
}

/// A value that was sent back is read as it was given, unless it holds fractions or is
/// nested more deeply than a reader follows.
pub proof fn a_result_is_read_back(bytes: Seq<u8>, d: JsonData)
    requires
        is_reply(bytes, Ok(d)),
        json::is_shallow(d, 99),
    ensures
        json::parsed_json(bytes) == Ok::<JsonData, Seq<char>>(
            JsonData::Object(map!["result"@ => d]),
        ),
{
    let whole = reply_data(Ok(d));
    assert forall|k: Seq<char>| whole->Object_0.dom().contains(k) implies json::is_shallow(
        #[trigger] whole->Object_0[k],
        99,
    ) by {}
    assert(json::is_shallow(whole, 100));
}

/// `d` is what stands under `args` in a request, or null.
pub open spec fn are_args(d: JsonData, m: Map<Seq<char>, JsonData>) -> bool {
    if m.dom().contains("args"@) {
        d == m["args"@]
    } else {
        d is Null
    }
}

/// A request is answered by the tool that it names: a handler of the caller's is run on
/// the arguments and its result sent back, a tool of the sandbox's own is left to be
/// run on them. A request without a name, and one for a tool that there is not, are
/// answered so.
pub proof fn a_request_is_answered_by_the_tool_it_names<F: Fn(Value) -> Result<Value, String>>(
    registry: ToolRegistry<F>,
    payload: Seq<u8>,
    m: Map<Seq<char>, JsonData>,
    out: Dispatch,
)
    requires
        registry.dispatches(payload, out),
        json::parsed_json(payload) == Ok::<JsonData, Seq<char>>(JsonData::Object(m)),
    ensures
        match json::text_under(m, "name"@) {
            None => out matches Dispatch::Reply(b) && is_reply(b@, Err("missing 'name'"@)),
            Some(name) => match registry.tool(name) {
                None => out matches Dispatch::Reply(b) && is_reply(b@, Err("unknown tool: "@ + name)),
                Some(Tool::Builtin(tool)) => out matches Dispatch::Pending(t, v) && t == tool
                    && are_args(json::data(v), m),
                Some(Tool::User(f)) => out matches Dispatch::Reply(b) && exists|
                    v: Value,
                    result: Result<Value, String>,
                |
                    are_args(json::data(v), m) && #[trigger] call_ensures(f, (v,), result)
                        && is_reply(b@, json::result_data(result)),
            },
        },
{
    if json::text_under(m, "name"@) is Some {
        let name = json::text_under(m, "name"@)->0;
        if registry.tool(name) is Some && registry.tool(name)->0 is User {
            let f = registry.tool(name)->0->User_0;
            let args = args_in(JsonData::Object(m));
            let (v, result) = choose|v: Value, result: Result<Value, String>|
                json::data(v) == args && #[trigger] call_ensures(f, (v,), result) && responds(
                    out,
                    json::result_data(result),
                );
            assert(are_args(json::data(v), m) && call_ensures(f, (v,), result));
        }
    }
}

/// What is no request is answered by an error: bytes that are no JSON with the reason,
/// and JSON that is no object as one without a name.
pub proof fn what_is_no_request_is_answered_so<F: Fn(Value) -> Result<Value, String>>(
    registry: ToolRegistry<F>,
    payload: Seq<u8>,
    out: Dispatch,
)
    requires
        registry.dispatches(payload, out),
    ensures
        match json::parsed_json(payload) {
            Err(cause) => out matches Dispatch::Reply(b) && is_reply(b@, Err(cause)),
            Ok(d) => !(d is Object) ==> (out matches Dispatch::Reply(b) && is_reply(
                b@,
                Err("missing 'name'"@),
            )),
        },
{
}

/// A guest sleeps as long as it asks for, up to a minute, and not at all where it does
/// not say.
pub proof fn a_guest_sleeps_as_long_as_it_asks(m: Map<Seq<char>, JsonData>)
    ensures
        match json::number_under(m, "ns"@) {
            Some(n) => {
                &&& n <= 60_000_000_000 ==> sleep_time(JsonData::Object(m)) == n
                &&& n > 60_000_000_000 ==> sleep_time(JsonData::Object(m)) == 60_000_000_000
            },
            None => sleep_time(JsonData::Object(m)) == 0,
        },
{
}

/// The exit code is what the guest reports, cut to 32 bits, and 1 where it names none.
pub proof fn the_exit_code_is_what_the_guest_reports(m: Map<Seq<char>, JsonData>)
    ensures
        crate::net_tools::is_cut(reported_code(JsonData::Object(m)), m, "code"@, 1),
{
    crate::net_tools::lemma_cut(m, "code"@, 1);
}

/// A tool is found only under its own name.
pub proof fn a_tool_is_found_only_under_its_name(name: Seq<char>)
    ensures
        net_tool_named(name) matches Some(tool) ==> name == tool.called(),
        fs_tool_named(name) matches Some(tool) ==> name == tool.called(),
        internal_tool_named(name) matches Some(tool) ==> (tool is Exit && name == "__hl_exit"@) || (
        tool is Sleep && name == "__hl_sleep"@),
{
}

/// A sandbox has the file tools where there are mounts and the networking tools where
/// there is a policy, whatever tools the caller supplies.
pub proof fn a_sandbox_has_its_own_tools<F>(
    user_tools: Option<ToolRegistry<F>>,
    mounts: bool,
    network: bool,
    net: NetTool,
    file: FsTool,
)
    ensures
        sandbox_tool(user_tools, mounts, true, net.called()) == Some(
            Tool::<F>::Builtin(Builtin::Net(net)),
        ),
        sandbox_tool(user_tools, true, network, file.called()) == Some(
            Tool::<F>::Builtin(Builtin::Fs(file)),
        ),
        sandbox_tool(user_tools, false, network, file.called()) == user_tool(
            user_tools,
            file.called(),
        ),
{
    lemma_first_letters();
    each_net_tool_answers_to_its_name(net);
    each_fs_tool_answers_to_its_name(file);
    assert(file.called()[0] == 'f');
    assert forall|t: NetTool| file.called() != #[trigger] t.called() by {
        assert(t.called()[0] == 'n');
    }
    assert(net_tool_named(file.called()) is None) by {
        a_tool_is_found_only_under_its_name(file.called());
    }
}

/// Under any other name a sandbox has what the caller supplied, and nothing else.
pub proof fn under_other_names_are_the_callers_tools<F>(
    user_tools: Option<ToolRegistry<F>>,
    mounts: bool,
    network: bool,
    name: Seq<char>,
)
    requires
        name != "__hl_exit"@,
        name != "__hl_sleep"@,
        forall|t: NetTool| name != #[trigger] t.called(),
        forall|t: FsTool| name != #[trigger] t.called(),
    ensures
        sandbox_tool(user_tools, mounts, network, name) == match user_tools {
            Some(tools) => tools.tool(name),
            None => None,
        },
{
    a_tool_is_found_only_under_its_name(name);
}

/// A tool is found where it was registered last under its name, and there is none
/// where none was registered.
pub proof fn the_tool_registered_last_is_found<F>(
    before: Seq<(String, Tool<F>)>,
    entry: (String, Tool<F>),
    after: Seq<(String, Tool<F>)>,
    name: Seq<char>,
)
    requires
        forall|j: int| 0 <= j < after.len() ==> (#[trigger] after[j]).0@ != name,
    ensures
        entry.0@ == name ==> tool_named(before.push(entry) + after, name) == Some(entry.1),
        tool_named(after, name) is None,
{
    let all = before.push(entry) + after;
    lemma_no_such_tool(after, name);
    if entry.0@ == name {
        assert forall|j: int| before.len() < j < all.len() implies (#[trigger] all[j]).0@ != name by {
            assert(all[j] == after[j - before.len() - 1]);
        }
        lemma_tool_at(all, before.len() as int, name);
    }
}

} // verus!
