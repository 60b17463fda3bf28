//! Host-mediated file access: the `fs_*` tools.
//!
//! A call goes through the steps of [`FsStep`]: it is decoded, routed to its
//! mount and resolved under the root of that mount, and what is left is one file
//! operation for the host to perform. [`finish`] turns its result into the reply.

use crate::base64_text;
use crate::base64_text::{decode_base64, encode_base64};
use crate::fs_router;
use crate::fs_router::{FsRouter, Route};
use crate::fs_sandbox;
use crate::fs_sandbox::{Answer, Resolution, Step};
use crate::json;
use crate::json::{
    array_value, bool_value, flag_field, object_value, set_member, string_value, text_field,
    unsigned_field, unsigned_value, JsonData,
};
use crate::path;
use crate::path::{lossy_text, HostPath, Names};
use crate::text;
use crate::text::{debug_text, owned};
use serde_json::Value;
use vstd::prelude::*;
use vstd::string::*;
use vstd::utf8::*;

verus! {

/// Cap for the bytes that `fs_read_bytes` reads (16 MiB).
pub const MAX_FS_READ: u64 = 16_777_216;

/// How many bytes `fs_read_bytes` reads that does not say.
pub const DEFAULT_FS_READ: u64 = 65536;

// ---------------------------------------------------------------------------
// Tools and calls
// ---------------------------------------------------------------------------

/// The file tools.
#[derive(Debug, Clone, Copy, PartialEq, Eq, Structural)]
pub enum FsTool {
    Read,
    Write,
    List,
    Stat,
    ReadBytes,
    WriteBytes,
    Truncate,
    Mkdir,
    Unlink,
}

impl FsTool {
    /// The name that the guest calls the tool by.
    pub open spec fn called(self) -> Seq<char> {
        match self {
            FsTool::Read => "fs_read"@,
            FsTool::Write => "fs_write"@,
            FsTool::List => "fs_list"@,
            FsTool::Stat => "fs_stat"@,
            FsTool::ReadBytes => "fs_read_bytes"@,
            FsTool::WriteBytes => "fs_write_bytes"@,
            FsTool::Truncate => "fs_truncate"@,
            FsTool::Mkdir => "fs_mkdir"@,
            FsTool::Unlink => "fs_unlink"@,
        }
    }

    /// The name that the guest calls the tool by.
    pub fn name(self) -> (r: &'static str)
        ensures
            r@ == self.called(),
    {
        match self {
            FsTool::Read => "fs_read",
            FsTool::Write => "fs_write",
            FsTool::List => "fs_list",
            FsTool::Stat => "fs_stat",
            FsTool::ReadBytes => "fs_read_bytes",
            FsTool::WriteBytes => "fs_write_bytes",
            FsTool::Truncate => "fs_truncate",
            FsTool::Mkdir => "fs_mkdir",
            FsTool::Unlink => "fs_unlink",
        }
    }
}

/// What a call wants done to its path.
#[derive(Debug, PartialEq, Eq)]
pub enum FsWish {
    Read,
    Write { text: String, append: bool },
    List,
    Stat,
    ReadBytes { offset: u64, want: u64 },
    WriteBytes { data: Vec<u8>, at: Option<u64>, append: bool },
    Truncate { length: u64 },
    Mkdir { parents: bool },
    Unlink,
}

/// A decoded call of a file tool.
#[derive(Debug, PartialEq, Eq)]
pub struct FsCall {
    pub path: String,
    pub wish: FsWish,
}

impl FsWish {
    /// The tool that this wish is for.
    pub open spec fn of_tool(&self) -> FsTool {
        match self {
            FsWish::Read => FsTool::Read,
            FsWish::Write { .. } => FsTool::Write,
            FsWish::List => FsTool::List,
            FsWish::Stat => FsTool::Stat,
            FsWish::ReadBytes { .. } => FsTool::ReadBytes,
            FsWish::WriteBytes { .. } => FsTool::WriteBytes,
            FsWish::Truncate { .. } => FsTool::Truncate,
            FsWish::Mkdir { .. } => FsTool::Mkdir,
            FsWish::Unlink => FsTool::Unlink,
        }
    }

    /// The tool that this wish is for.
    pub fn tool(&self) -> (r: FsTool)
        ensures
            r == self.of_tool(),
    {
        match self {
            FsWish::Read => FsTool::Read,
            FsWish::Write { .. } => FsTool::Write,
            FsWish::List => FsTool::List,
            FsWish::Stat => FsTool::Stat,
            FsWish::ReadBytes { .. } => FsTool::ReadBytes,
            FsWish::WriteBytes { .. } => FsTool::WriteBytes,
            FsWish::Truncate { .. } => FsTool::Truncate,
            FsWish::Mkdir { .. } => FsTool::Mkdir,
            FsWish::Unlink => FsTool::Unlink,
        }
    }
}

/// The error for a call without the member `key`.
pub open spec fn missing(tool: FsTool, key: Seq<char>) -> Seq<char> {
    tool.called() + ": missing '"@ + key + "'"@
}

fn missing_text(tool: FsTool, key: &str) -> (r: String)
    ensures
        r@ == missing(tool, key@),
{
    let mut out = owned(tool.name());
    out.append(": missing '");
    out.append(key);
    out.append("'");
    out
}

/// How many bytes `fs_read_bytes` is to read.
pub open spec fn wanted(d: JsonData) -> u64 {
    let n = match json::unsigned_member(d, "len"@) {
        Some(n) => n,
        None => DEFAULT_FS_READ,
    };
    if n < MAX_FS_READ {
        n
    } else {
        MAX_FS_READ
    }
}

/// `r` is what decoding the arguments `d` of a call of `tool` gives.
pub open spec fn decodes_to(tool: FsTool, d: JsonData, r: Result<FsCall, String>) -> bool {
    match json::text_member(d, "path"@) {
        None => if tool == FsTool::List {
            r matches Ok(call) && call.path@ == ""@ && call.wish == FsWish::List
        } else {
            json::fails(r, missing(tool, "path"@))
        },
        Some(p) => match r {
            Ok(call) => call.path@ == p && wish_decodes(tool, d, Ok(call.wish)),
            Err(m) => wish_decodes(tool, d, Err(m)),
        },
    }
}

/// `r` is the wish in the arguments `d` of a call of `tool`, beside its path.
pub open spec fn wish_decodes(tool: FsTool, d: JsonData, r: Result<FsWish, String>) -> bool {
    match tool {
        FsTool::Read => r == Ok::<FsWish, String>(FsWish::Read),
        FsTool::Write => match json::text_member(d, "text"@) {
            None => json::fails(r, missing(tool, "text"@)),
            Some(t) => r matches Ok(FsWish::Write { text, append }) && text@ == t && append
                == json::flag_member(d, "append"@),
        },
        FsTool::List => r == Ok::<FsWish, String>(FsWish::List),
        FsTool::Stat => r == Ok::<FsWish, String>(FsWish::Stat),
        FsTool::ReadBytes => r == Ok::<FsWish, String>(
            FsWish::ReadBytes {
                offset: match json::unsigned_member(d, "offset"@) {
                    Some(n) => n,
                    None => 0,
                },
                want: wanted(d),
            },
        ),
        FsTool::WriteBytes => match json::text_member(d, "data"@) {
            None => json::fails(r, missing(tool, "data"@)),
            Some(t) => match base64_text::base64_decoded(t) {
                Err(m) => json::fails(r, "fs_write_bytes: bad base64: "@ + m),
                Ok(bytes) => r matches Ok(FsWish::WriteBytes { data, at, append }) && data@
                    == bytes && at == json::unsigned_member(d, "offset"@) && append
                    == json::flag_member(d, "append"@),
            },
        },
        FsTool::Truncate => match json::unsigned_member(d, "length"@) {
            None => json::fails(r, missing(tool, "length"@)),
            Some(n) => r == Ok::<FsWish, String>(FsWish::Truncate { length: n }),
        },
        FsTool::Mkdir => r == Ok::<FsWish, String>(
            FsWish::Mkdir { parents: json::flag_member(d, "parents"@) },
        ),
        FsTool::Unlink => r == Ok::<FsWish, String>(FsWish::Unlink),
    }
}

fn decode_wish(tool: FsTool, args: &Value) -> (r: Result<FsWish, String>)
    ensures
        wish_decodes(tool, json::data(*args), r),
{
    match tool {
        FsTool::Read => Ok(FsWish::Read),
        FsTool::Write => match text_field(args, "text") {
            None => Err(missing_text(tool, "text")),
            Some(t) => Ok(FsWish::Write { text: owned(t), append: flag_field(args, "append") }),
        },
        FsTool::List => Ok(FsWish::List),
        FsTool::Stat => Ok(FsWish::Stat),
        FsTool::ReadBytes => {
            let offset: u64 = match unsigned_field(args, "offset") {
                Some(n) => n,
                None => 0,
            };
            let len: u64 = match unsigned_field(args, "len") {
                Some(n) => n,
                None => DEFAULT_FS_READ,
            };
            let want: u64 = if len < MAX_FS_READ {
                len
            } else {
                MAX_FS_READ
            };
            Ok(FsWish::ReadBytes { offset, want })
        },
        FsTool::WriteBytes => match text_field(args, "data") {
            None => Err(missing_text(tool, "data")),
            Some(t) => match decode_base64(t) {
                Err(m) => {
                    let mut out = owned("fs_write_bytes: bad base64: ");
                    out.append(m.as_str());
                    Err(out)
                },
                Ok(data) => Ok(
                    FsWish::WriteBytes {
                        data,
                        at: unsigned_field(args, "offset"),
                        append: flag_field(args, "append"),
                    },
                ),
            },
        },
        FsTool::Truncate => match unsigned_field(args, "length") {
            None => Err(missing_text(tool, "length")),
            Some(length) => Ok(FsWish::Truncate { length }),
        },
        FsTool::Mkdir => Ok(FsWish::Mkdir { parents: flag_field(args, "parents") }),
        FsTool::Unlink => Ok(FsWish::Unlink),
    }
}

/// Decode the arguments of a call of `tool`.
pub fn decode_fs(tool: FsTool, args: &Value) -> (r: Result<FsCall, String>)
    ensures
        decodes_to(tool, json::data(*args), r),
{
    match text_field(args, "path") {
        None => match tool {
            FsTool::List => Ok(FsCall { path: owned(""), wish: FsWish::List }),
            _ => Err(missing_text(tool, "path")),
        },
        Some(p) => match decode_wish(tool, args) {
            Ok(wish) => Ok(FsCall { path: owned(p), wish }),
            Err(m) => Err(m),
        },
    }
}

// ---------------------------------------------------------------------------
// Steps
// ---------------------------------------------------------------------------

/// A file operation for the host to perform on a path.
#[derive(Debug, Clone, Copy, PartialEq, Eq, Structural)]
pub enum FsAction {
    /// Read the whole file as text.
    ReadText,
    /// Open the file for writing, creating it where it does not exist; move to
    /// `seek`, if given; write the bytes of the call.
    Write { truncate: bool, append: bool, seek: Option<u64> },
    /// List a directory.
    ReadDir,
    /// Read size and kind.
    Metadata,
    /// Open the file, move to `seek`, if given, and read once, at most `want` bytes.
    ReadAt { seek: Option<u64>, want: u64 },
    /// Set the length of an existing file.
    SetLen { length: u64 },
    /// Create a directory, with its missing parents where `all` says so.
    CreateDir { all: bool },
    /// Remove an empty directory.
    RemoveDir,
    /// Remove a file.
    RemoveFile,
}

/// An operation for the host to perform: `action` on `target`, for `call`.
#[derive(Debug, PartialEq, Eq)]
pub struct FsOp {
    pub call: FsCall,
    pub target: HostPath,
    pub action: FsAction,
}

/// What a call needs next.
#[derive(Debug)]
pub enum FsStep {
    /// Nothing: this is the result of the call.
    Reply(Result<Value, String>),
    /// The question of this resolution is to be answered: see `go_on`.
    Ask(FsCall, Resolution),
    /// The host is to perform this operation: see `finish`.
    Act(FsOp),
}

/// The operation that a wish begins with.
pub open spec fn first_action(wish: FsWish) -> FsAction {
    match wish {
        FsWish::Read => FsAction::ReadText,
        FsWish::Write { append, .. } => FsAction::Write { truncate: !append, append, seek: None },
        FsWish::List => FsAction::ReadDir,
        FsWish::Stat => FsAction::Metadata,
        FsWish::ReadBytes { offset, want } => FsAction::ReadAt {
            seek: if offset > 0 {
                Some(offset)
            } else {
                None
            },
            want,
        },
        FsWish::WriteBytes { at, append, .. } => FsAction::Write {
            truncate: at is None && !append,
            append,
            seek: if append {
                None
            } else {
                at
            },
        },
        FsWish::Truncate { length } => FsAction::SetLen { length },
        FsWish::Mkdir { parents } => FsAction::CreateDir { all: parents },
        FsWish::Unlink => FsAction::Metadata,
    }
}

impl FsWish {
    /// The bytes that the wish is to write.
    pub open spec fn payload(&self) -> Seq<u8> {
        match self {
            FsWish::Write { text, .. } => encode_utf8(text@),
            FsWish::WriteBytes { data, .. } => data@,
            _ => Seq::empty(),
        }
    }

    /// The operation that this wish begins with.
    pub fn action(&self) -> (r: FsAction)
        ensures
            r == first_action(*self),
    {
        match self {
            FsWish::Read => FsAction::ReadText,
            FsWish::Write { append, .. } => FsAction::Write {
                truncate: !*append,
                append: *append,
                seek: None,
            },
            FsWish::List => FsAction::ReadDir,
            FsWish::Stat => FsAction::Metadata,
            FsWish::ReadBytes { offset, want } => {
                let seek: Option<u64> = if *offset > 0 {
                    Some(*offset)
                } else {
                    None
                };
                FsAction::ReadAt { seek, want: *want }
            },
            FsWish::WriteBytes { at, append, .. } => {
                let seek: Option<u64> = if *append {
                    None
                } else {
                    *at
                };
                FsAction::Write { truncate: at.is_none() && !*append, append: *append, seek }
            },
            FsWish::Truncate { length } => FsAction::SetLen { length: *length },
            FsWish::Mkdir { parents } => FsAction::CreateDir { all: *parents },
            FsWish::Unlink => FsAction::Metadata,
        }
    }
}

impl FsCall {
    /// The bytes that the call is to write.
    pub fn bytes(&self) -> (r: &[u8])
        ensures
            r@ == self.wish.payload(),
    {
        match &self.wish {
            FsWish::Write { text, .. } => text.as_str().as_bytes(),
            FsWish::WriteBytes { data, .. } => data.as_slice(),
            _ => {
                let none: &[u8] = &[];
                assert(none@ =~= Seq::<u8>::empty());
                none
            },
        }
    }
}

/// `step` is the result `r`.
pub open spec fn replies(step: FsStep, r: Result<JsonData, Seq<char>>) -> bool {
    step matches FsStep::Reply(x) && json::result_data(x) == r
}

/// `step` goes on with `call` as resolving its path does.
pub open spec fn resolving(
    call: FsCall,
    root: Names,
    rel: Seq<char>,
    logical: Names,
    resolved: fs_sandbox::StepModel,
    step: FsStep,
) -> bool {
    match resolved {
        fs_sandbox::StepModel::Failed(e) => replies(step, Err(e.wording())),
        fs_sandbox::StepModel::Ask(stage) => step matches FsStep::Ask(c, r) && c == call && r.wf()
            && r.root@ == root && r.guest_path@ == rel && r.logical@ == logical && r.stage.model()
            == stage,
        fs_sandbox::StepModel::Done(p) => step matches FsStep::Act(op) && op.call == call
            && op.target@ == p && op.target.wf() && op.action == first_action(call.wish),
    }
}

/// `step` is the first step of a decoded call.
pub open spec fn begins(call: FsCall, routes: Seq<Route>, step: FsStep) -> bool {
    match fs_router::first_match(routes, call.path@) {
        None => replies(
            step,
            Err(
                "path "@ + text::debug_form(call.path@) + " does not match any preopened mount"@,
            ),
        ),
        Some((root, rel)) => match fs_sandbox::logical_path(root, rel) {
            None => replies(step, Err(fs_sandbox::ErrorModel::Escapes(rel).wording())),
            Some(logical) => resolving(
                call,
                root,
                rel,
                logical,
                fs_sandbox::first_step(root, rel),
                step,
            ),
        },
    }
}

fn follow(call: FsCall, step: Step) -> (r: FsStep)
    ensures
        match step {
            Step::Failed(e) => replies(r, Err(e.model().wording())),
            Step::Ask(resolution) => r == FsStep::Ask(call, resolution),
            Step::Done(p) => r matches FsStep::Act(op) && op.call == call && op.target == p
                && op.action == first_action(call.wish),
        },
{
    match step {
        Step::Failed(e) => FsStep::Reply(Err(e.message())),
        Step::Ask(resolution) => FsStep::Ask(call, resolution),
        Step::Done(target) => {
            let action = call.wish.action();
            FsStep::Act(FsOp { call, target, action })
        },
    }
}

impl FsRouter {
    /// Begin with a decoded call.
    pub fn begin(&self, call: FsCall) -> (r: FsStep)
        requires
            self.wf(),
        ensures
            begins(call, self@, r),
    {
        match self.route(call.path.as_str()) {
            Err(m) => FsStep::Reply(Err(m)),
            Ok((fs, rel)) => {
                let step = fs.resolve(rel.as_str());
                follow(call, step)
            },
        }
    }

    /// Begin with a call as it came from the guest.
    pub fn start(&self, tool: FsTool, args: &Value) -> (r: FsStep)
        requires
            self.wf(),
        ensures
            exists|decoded: Result<FsCall, String>| #[trigger]
                decodes_to(tool, json::data(*args), decoded) && match decoded {
                    Ok(call) => begins(call, self@, r),
                    Err(m) => replies(r, Err(m@)),
                },
    {
        match decode_fs(tool, args) {
            Ok(call) => {
                assert(decodes_to(tool, json::data(*args), Ok(call)));
                self.begin(call)
            },
            Err(m) => {
                assert(decodes_to(tool, json::data(*args), Err(m)));
                FsStep::Reply(Err(m))
            },
        }
    }
}

/// Go on with the answer to the question of a resolution.
pub fn go_on(call: FsCall, resolution: Resolution, answer: Answer) -> (r: FsStep)
    requires
        resolution.wf(),
        answer.wf(),
        fs_sandbox::answers(resolution.stage.model(), answer.model()),
    ensures
        resolving(
            call,
            resolution.root@,
            resolution.guest_path@,
            resolution.logical@,
            fs_sandbox::next_step(
                resolution.root@,
                resolution.guest_path@,
                resolution.logical@,
                resolution.stage.model(),
                answer.model(),
            ),
            r,
        ),
{
    let step = resolution.answer(answer);
    follow(call, step)
}

// ---------------------------------------------------------------------------
// Results
// ---------------------------------------------------------------------------

/// An entry of a directory.
#[derive(Debug, PartialEq, Eq)]
pub struct DirEntry {
    pub name: Vec<u8>,
    pub is_dir: bool,
    pub is_file: bool,
    pub is_symlink: bool,
}

/// How an operation ended.
#[derive(Debug, PartialEq, Eq)]
pub enum FsEvent {
    /// It was done.
    Done,
    /// The text of the file.
    Text(String),
    /// The entries of the directory.
    Listed(Vec<DirEntry>),
    /// Size and kind of the path.
    Meta { size: u64, is_dir: bool, is_file: bool },
    /// The bytes that were read.
    Bytes(Vec<u8>),
    /// The operation failed, for this reason.
    Failed(String),
    /// The file could not be moved to the given place, for this reason.
    SeekFailed(String),
    /// An entry of the directory could not be read, for this reason.
    EntryFailed(String),
}

/// `event` is one that can end `op`.
pub open spec fn can_end(op: FsOp, event: FsEvent) -> bool {
    match event {
        FsEvent::Failed(_) => true,
        FsEvent::SeekFailed(_) => op.action is Write || op.action is ReadAt,
        FsEvent::EntryFailed(_) => op.action is ReadDir,
        FsEvent::Text(_) => op.action is ReadText,
        FsEvent::Listed(_) => op.action is ReadDir,
        FsEvent::Meta { .. } => op.action is Metadata,
        FsEvent::Bytes(b) => op.action matches FsAction::ReadAt { want, .. } && b@.len() <= want
            <= MAX_FS_READ,
        FsEvent::Done => op.action is Write || op.action is SetLen || op.action is CreateDir
            || op.action is RemoveDir || op.action is RemoveFile,
    }
}

/// The error of an operation.
pub open spec fn failure(call: FsCall, what: Seq<char>, cause: Seq<char>) -> Seq<char> {
    call.wish.of_tool().called() + what + text::debug_form(call.path@) + ": "@ + cause
}

fn failure_text(call: &FsCall, what: &str, cause: &str) -> (r: String)
    ensures
        r@ == failure(*call, what@, cause@),
{
    let mut out = owned(call.wish.tool().name());
    out.append(what);
    out.append(debug_text(call.path.as_str()).as_str());
    out.append(": ");
    out.append(cause);
    out
}

/// An entry of a directory as it goes to the guest.
pub open spec fn entry_data(e: DirEntry) -> JsonData {
    json::with_member(
        json::with_member(
            json::with_member(
                json::one_member("name"@, JsonData::Str(path::lossy_form(e.name@))),
                "is_dir"@,
                JsonData::Bool(e.is_dir),
            ),
            "is_file"@,
            JsonData::Bool(e.is_file),
        ),
        "is_symlink"@,
        JsonData::Bool(e.is_symlink),
    )
}

/// The reply for the size and kind of a path.
pub open spec fn meta_data(size: u64, is_dir: bool, is_file: bool) -> JsonData {
    json::with_member(
        json::with_member(
            json::one_member("size"@, JsonData::Unsigned(size)),
            "is_dir"@,
            JsonData::Bool(is_dir),
        ),
        "is_file"@,
        JsonData::Bool(is_file),
    )
}

/// The reply for some bytes that were read, of at most `want`.
pub open spec fn read_data(b: Seq<u8>, want: u64) -> JsonData {
    json::with_member(
        json::with_member(
            json::one_member("data"@, JsonData::Str(base64_text::base64_encoded(b))),
            "eof"@,
            JsonData::Bool(b.len() < want),
        ),
        "bytes_read"@,
        JsonData::Unsigned(b.len() as u64),
    )
}

/// `step` is what follows the end of `op`: the result of the call, or, for a path
/// that is to be removed, its removal.
pub open spec fn ends_with(op: FsOp, event: FsEvent, step: FsStep) -> bool {
    match event {
        FsEvent::Failed(m) => replies(step, Err(failure(op.call, " "@, m@))),
        FsEvent::SeekFailed(m) => replies(step, Err(failure(op.call, " seek "@, m@))),
        FsEvent::EntryFailed(m) => replies(step, Err(m@)),
        FsEvent::Text(t) => replies(step, Ok(json::one_member("text"@, JsonData::Str(t@)))),
        FsEvent::Listed(list) => replies(
            step,
            Ok(
                json::one_member(
                    "entries"@,
                    JsonData::Array(list@.map_values(|e: DirEntry| entry_data(e))),
                ),
            ),
        ),
        FsEvent::Meta { size, is_dir, is_file } => if op.call.wish is Unlink {
            step matches FsStep::Act(next) && next.call == op.call && next.target == op.target
                && next.action == if is_dir {
                FsAction::RemoveDir
            } else {
                FsAction::RemoveFile
            }
        } else {
            replies(step, Ok(meta_data(size, is_dir, is_file)))
        },
        FsEvent::Bytes(b) => replies(step, Ok(read_data(b@, op.action->want))),
        FsEvent::Done => if op.action is Write {
            replies(
                step,
                Ok(
                    json::one_member(
                        "bytes_written"@,
                        JsonData::Unsigned(op.call.wish.payload().len() as u64),
                    ),
                ),
            )
        } else {
            replies(step, Ok(json::no_members()))
        },
    }
}

fn entry_value(e: &DirEntry) -> (r: Value)
    ensures
        json::data(r) == entry_data(*e),
{
    let mut v = object_value();
    set_member(&mut v, "name", string_value(lossy_text(&e.name).as_str()));
    set_member(&mut v, "is_dir", bool_value(e.is_dir));
    set_member(&mut v, "is_file", bool_value(e.is_file));
    set_member(&mut v, "is_symlink", bool_value(e.is_symlink));
    v
}

fn entries_value(list: &[DirEntry]) -> (r: Value)
    ensures
        json::data(r) == json::one_member(
            "entries"@,
            JsonData::Array(list@.map_values(|e: DirEntry| entry_data(e))),
        ),
{
    let mut items: Vec<Value> = Vec::new();
    let ghost data_of = |v: Value| json::data(v);
    let ghost entry_of = |e: DirEntry| entry_data(e);
    for i in 0..list.len()
        invariant
            data_of == (|v: Value| json::data(v)),
            entry_of == (|e: DirEntry| entry_data(e)),
            items@.map_values(data_of) == list@.take(i as int).map_values(entry_of),
    {
        let ghost before = items@;
        let v = entry_value(&list[i]);
        items.push(v);
        proof {
            assert(items@.map_values(data_of) =~= before.map_values(data_of).push(json::data(v)));
            assert(list@.take(i + 1).map_values(entry_of) =~= list@.take(i as int).map_values(
                entry_of,
            ).push(entry_data(list@[i as int])));
        }
    }
    assert(list@.take(list@.len() as int) =~= list@);
    let mut v = object_value();
    set_member(&mut v, "entries", array_value(items));
    v
}

/// Go on after an operation ended.
pub fn finish(op: FsOp, event: FsEvent) -> (r: FsStep)
    requires
        can_end(op, event),
    ensures
        ends_with(op, event, r),
        event matches FsEvent::Bytes(b) ==> base64_text::base64_decoded(
            base64_text::base64_encoded(b@),
        ) == Ok::<Seq<u8>, Seq<char>>(b@),
{
    match event {
        FsEvent::Failed(m) => FsStep::Reply(Err(failure_text(&op.call, " ", m.as_str()))),
        FsEvent::SeekFailed(m) => FsStep::Reply(
            Err(failure_text(&op.call, " seek ", m.as_str())),
        ),
        FsEvent::EntryFailed(m) => FsStep::Reply(Err(m)),
        FsEvent::Text(t) => {
            let mut v = object_value();
            set_member(&mut v, "text", string_value(t.as_str()));
            FsStep::Reply(Ok(v))
        },
        FsEvent::Listed(list) => FsStep::Reply(Ok(entries_value(&list))),
        FsEvent::Meta { size, is_dir, is_file } => {
            if let FsWish::Unlink = op.call.wish {
                let action = if is_dir {
                    FsAction::RemoveDir
                } else {
                    FsAction::RemoveFile
                };
                return FsStep::Act(FsOp { call: op.call, target: op.target, action });
            }
            let mut v = object_value();
            set_member(&mut v, "size", unsigned_value(size));
            set_member(&mut v, "is_dir", bool_value(is_dir));
            set_member(&mut v, "is_file", bool_value(is_file));
            FsStep::Reply(Ok(v))
        },
        FsEvent::Bytes(b) => {
            let want: u64 = match op.action {
                FsAction::ReadAt { want, .. } => want,
                _ => 0,
            };
            let mut v = object_value();
            set_member(&mut v, "data", string_value(encode_base64(&b).as_str()));
            set_member(&mut v, "eof", bool_value((b.len() as u64) < want));
            set_member(&mut v, "bytes_read", unsigned_value(b.len() as u64));
            FsStep::Reply(Ok(v))
        },
        FsEvent::Done => {
            let mut v = object_value();
            if let FsAction::Write { .. } = op.action {
                set_member(&mut v, "bytes_written", unsigned_value(op.call.bytes().len() as u64));
            }
            FsStep::Reply(Ok(v))
        },
    }
}

// ---------------------------------------------------------------------------
// Laws
// ---------------------------------------------------------------------------

/// Whatever the host answers while a path is resolved, an operation is asked for
/// only on a path that is the root of the mount or lies below it.
pub proof fn every_target_is_under_its_mount(
    call: FsCall,
    resolution: Resolution,
    answer: Answer,
    op: FsOp,
)
    requires
        resolution.wf(),
        fs_sandbox::answers(resolution.stage.model(), answer.model()),
        resolving(
            call,
            resolution.root@,
            resolution.guest_path@,
            resolution.logical@,
            fs_sandbox::next_step(
                resolution.root@,
                resolution.guest_path@,
                resolution.logical@,
                resolution.stage.model(),
                answer.model(),
            ),
            FsStep::Act(op),
        ),
    ensures
        resolution.root@.is_prefix_of(op.target@),
{
    fs_sandbox::a_finished_step_is_under_the_root(
        resolution.root@,
        resolution.guest_path@,
        resolution.logical@,
        resolution.stage.model(),
        answer.model(),
    );
}

/// No operation is asked for before the path of a call was resolved.
pub proof fn nothing_is_done_before_resolving(call: FsCall, routes: Seq<Route>, op: FsOp)
    ensures
        !begins(call, routes, FsStep::Act(op)),
{
}

/// A path that leaves its mount by `..` is refused at once, whatever the call
/// wants done to it.
pub proof fn an_escaping_path_is_refused(call: FsCall, routes: Seq<Route>, step: FsStep)
    requires
        begins(call, routes, step),
        fs_router::first_match(routes, call.path@) matches Some((root, rel))
            && fs_sandbox::logical_path(root, rel) is None,
    ensures
        fs_router::first_match(routes, call.path@) matches Some((root, rel)) && replies(
            step,
            Err("path escapes mount root: "@ + text::debug_form(rel)),
        ),
{
}

/// What follows an operation is about the same path: an operation that another
/// one leads to has the same target.
pub proof fn the_target_stays_the_same(op: FsOp, event: FsEvent, next: FsOp)
    requires
        ends_with(op, event, FsStep::Act(next)),
    ensures
        next.target == op.target,
        op.call.wish is Unlink,
        next.action is RemoveDir || next.action is RemoveFile,
{
}

/// However much a guest wants to read, it is never more than the cap.
pub proof fn reads_are_capped(tool: FsTool, d: JsonData, call: FsCall)
    requires
        decodes_to(tool, d, Ok(call)),
    ensures
        first_action(call.wish) matches FsAction::ReadAt { want, .. } ==> want <= MAX_FS_READ,
{
}

/// `data` laid over `contents` from `at` on; a gap before it is filled with zeros.
pub open spec fn overlaid(contents: Seq<u8>, at: int, data: Seq<u8>) -> Seq<u8> {
    let len = if contents.len() >= at + data.len() {
        contents.len() as int
    } else {
        at + data.len()
    };
    Seq::new(
        len as nat,
        |i: int|
            if at <= i < at + data.len() {
                data[i - at]
            } else if i < contents.len() {
                contents[i]
            } else {
                0u8
            },
    )
}

/// What a file holds after a write, or after its length was set: `contents` is what
/// it held before, which is nothing where it did not exist. What is added to reach a
/// length is zeros.
pub open spec fn file_after(contents: Seq<u8>, action: FsAction, data: Seq<u8>) -> Seq<u8> {
    match action {
        FsAction::Write { truncate, append, seek } => {
            let kept = if truncate {
                Seq::empty()
            } else {
                contents
            };
            if append {
                kept + data
            } else {
                overlaid(
                    kept,
                    match seek {
                        Some(at) => at as int,
                        None => 0,
                    },
                    data,
                )
            }
        },
        FsAction::SetLen { length } => Seq::new(
            length as nat,
            |i: int|
                if i < contents.len() {
                    contents[i]
                } else {
                    0u8
                },
        ),
        _ => contents,
    }
}

/// `event` is what reading gives where the file holds `contents`: all of it as
/// text, or the bytes from the given place on, as many as there are and are
/// wanted. Behind the end there are none.
pub open spec fn read_from(contents: Seq<u8>, action: FsAction, event: FsEvent) -> bool {
    match action {
        FsAction::ReadText => event matches FsEvent::Text(t) && encode_utf8(t@) == contents,
        FsAction::ReadAt { seek, want } => {
            let from = match seek {
                Some(at) => at as int,
                None => 0,
            };
            let rest = contents.len() - from;
            event matches FsEvent::Bytes(b) && b@ == if rest <= 0 {
                Seq::empty()
            } else if rest < want {
                contents.skip(from)
            } else {
                contents.subrange(from, from + want)
            }
        },
        _ => false,
    }
}

/// Text that was written is read back, whatever the file held before.
pub proof fn written_text_is_read_back(
    contents: Seq<u8>,
    text: String,
    read: FsOp,
    event: FsEvent,
    step: FsStep,
)
    requires
        read.action == first_action(FsWish::Read),
        ({
            let wish = FsWish::Write { text, append: false };
            read_from(file_after(contents, first_action(wish), wish.payload()), read.action, event)
        }),
        ends_with(read, event, step),
    ensures
        replies(step, Ok(json::one_member("text"@, JsonData::Str(text@)))),
{
    let data = encode_utf8(text@);
    assert(overlaid(Seq::empty(), 0, data) =~= data);
    let t = event->Text_0;
    encode_utf8_decode_utf8(text@);
    encode_utf8_decode_utf8(t@);
}

/// Appended text stands behind what the file held before, and both are read back.
pub proof fn appended_text_stands_behind(
    before: String,
    text: String,
    read: FsOp,
    event: FsEvent,
    step: FsStep,
)
    requires
        read.action == first_action(FsWish::Read),
        ({
            let wish = FsWish::Write { text, append: true };
            read_from(
                file_after(encode_utf8(before@), first_action(wish), wish.payload()),
                read.action,
                event,
            )
        }),
        ends_with(read, event, step),
    ensures
        replies(step, Ok(json::one_member("text"@, JsonData::Str(before@ + text@)))),
{
    let t = event->Text_0;
    let whole = before@ + text@;
    lemma_encoded_behind(before@, text@);
    encode_utf8_decode_utf8(whole);
    encode_utf8_decode_utf8(t@);
}

/// The encoding of two texts one behind the other is that of each.
pub proof fn lemma_encoded_behind(a: Seq<char>, b: Seq<char>)
    ensures
        encode_utf8(a + b) == encode_utf8(a) + encode_utf8(b),
    decreases a.len(),
{
    if a.len() == 0 {
        assert(a + b =~= b);
        assert(encode_utf8(a) + encode_utf8(b) =~= encode_utf8(b));
    } else {
        assert((a + b).drop_first() =~= a.drop_first() + b);
        lemma_encoded_behind(a.drop_first(), b);
        assert(encode_utf8(a + b) =~= encode_utf8(a) + encode_utf8(b));
    }
}

/// A read behind the end of the file gives nothing, and says that it is the end
/// where anything was wanted.
pub proof fn nothing_is_read_behind_the_end(
    contents: Seq<u8>,
    offset: u64,
    want: u64,
    read: FsOp,
    event: FsEvent,
    step: FsStep,
)
    requires
        offset >= contents.len(),
        read.action == first_action(FsWish::ReadBytes { offset, want }),
        read_from(contents, read.action, event),
        ends_with(read, event, step),
    ensures
        replies(step, Ok(read_data(Seq::empty(), want))),
{
}

/// Bytes that were written at a place are read back from there, and the rest of
/// the file stays as it was. A gap before the place reads as zeros.
pub proof fn written_bytes_are_read_back(
    contents: Seq<u8>,
    data: Vec<u8>,
    at: u64,
    read: FsOp,
    event: FsEvent,
    step: FsStep,
)
    requires
        read.action == first_action(FsWish::ReadBytes { offset: at, want: data@.len() as u64 }),
        data@.len() <= u64::MAX,
        ({
            let wish = FsWish::WriteBytes { data, at: Some(at), append: false };
            read_from(file_after(contents, first_action(wish), wish.payload()), read.action, event)
        }),
        ends_with(read, event, step),
    ensures
        replies(step, Ok(read_data(data@, data@.len() as u64))),
        ({
            let wish = FsWish::WriteBytes { data, at: Some(at), append: false };
            let now = file_after(contents, first_action(wish), wish.payload());
            &&& forall|i: int|
                0 <= i < contents.len() && !(at <= i < at + data@.len()) ==> now[i] == contents[i]
            &&& forall|i: int| contents.len() <= i < at ==> now[i] == 0
        }),
{
    let wish = FsWish::WriteBytes { data, at: Some(at), append: false };
    let now = file_after(contents, first_action(wish), wish.payload());
    assert(now.subrange(at as int, at + data@.len()) =~= data@);
    let b = event->Bytes_0;
    assert(b@ =~= data@);
}

/// A binary write that names neither a place nor the end replaces the file, whatever
/// it held before.
pub proof fn a_binary_write_replaces_the_file(contents: Seq<u8>, data: Vec<u8>)
    ensures
        ({
            let wish = FsWish::WriteBytes { data, at: None, append: false };
            file_after(contents, first_action(wish), wish.payload()) == data@
        }),
{
    assert(overlaid(Seq::empty(), 0, data@) =~= data@);
}

/// A text write that does not append replaces the file, and one that does leaves
/// what it held and stands behind it.
pub proof fn a_text_write_replaces_or_appends(contents: Seq<u8>, text: String)
    ensures
        ({
            let wish = FsWish::Write { text, append: false };
            file_after(contents, first_action(wish), wish.payload()) == encode_utf8(text@)
        }),
        ({
            let wish = FsWish::Write { text, append: true };
            file_after(contents, first_action(wish), wish.payload()) == contents + encode_utf8(
                text@,
            )
        }),
{
    assert(overlaid(Seq::empty(), 0, encode_utf8(text@)) =~= encode_utf8(text@));
}

/// Appended bytes stand behind what the file held, wherever else they were to be
/// written.
pub proof fn appended_bytes_stand_behind(contents: Seq<u8>, data: Vec<u8>, at: Option<u64>)
    ensures
        ({
            let wish = FsWish::WriteBytes { data, at, append: true };
            file_after(contents, first_action(wish), wish.payload()) == contents + data@
        }),
{
}

/// Bytes that are written at a place are there afterwards, and make the file longer
/// only as far as they reach.
pub proof fn bytes_at_a_place_reach_no_further(contents: Seq<u8>, data: Vec<u8>, at: u64)
    ensures
        ({
            let wish = FsWish::WriteBytes { data, at: Some(at), append: false };
            let now = file_after(contents, first_action(wish), wish.payload());
            &&& now.len() == if at + data@.len() > contents.len() {
                at + data@.len()
            } else {
                contents.len() as int
            }
            &&& forall|i: int| 0 <= i < data@.len() ==> now[at + i] == #[trigger] data@[i]
        }),
{
}

/// Setting the length of a file keeps as much of it as there is room for, and fills
/// the rest with zeros.
pub proof fn a_truncated_file_has_its_length(contents: Seq<u8>, length: u64)
    ensures
        ({
            let wish = FsWish::Truncate { length };
            let now = file_after(contents, first_action(wish), wish.payload());
            &&& now.len() == length
            &&& forall|i: int| 0 <= i < length && i < contents.len() ==> now[i] == contents[i]
            &&& forall|i: int| contents.len() <= i < length ==> now[i] == 0
        }),
{
}

/// Reading, listing and looking change no file, and neither does the first look of a
/// removal.
pub proof fn looking_changes_nothing(contents: Seq<u8>, wish: FsWish)
    requires
        wish is Read || wish is List || wish is Stat || wish is ReadBytes || wish is Unlink,
    ensures
        file_after(contents, first_action(wish), wish.payload()) == contents,
        wish is Read ==> first_action(wish) is ReadText,
        wish is List ==> first_action(wish) is ReadDir,
        wish is Stat || wish is Unlink ==> first_action(wish) is Metadata,
        wish is ReadBytes ==> first_action(wish) is ReadAt,
{
}

/// The directories after an operation on `target`.
pub open spec fn dirs_after(dirs: Set<Names>, target: Names, action: FsAction) -> Set<Names> {
    match action {
        FsAction::CreateDir { all } => if all {
            Set::new(|d: Names| dirs.contains(d) || d.is_prefix_of(target))
        } else {
            dirs.insert(target)
        },
        FsAction::RemoveDir => dirs.remove(target),
        _ => dirs,
    }
}

/// A directory that was made is there, with all that it stands in where its parents
/// were wanted; where they were not, no other directory is new.
pub proof fn a_directory_that_was_made_is_there(dirs: Set<Names>, target: Names, dir: Names)
    ensures
        ({
            let now = dirs_after(dirs, target, first_action(FsWish::Mkdir { parents: true }));
            now.contains(target) && (dir.is_prefix_of(target) ==> now.contains(dir)) && (
            dirs.contains(dir) ==> now.contains(dir))
        }),
        ({
            let now = dirs_after(dirs, target, first_action(FsWish::Mkdir { parents: false }));
            now.contains(target) && (dir != target ==> now.contains(dir) == dirs.contains(dir))
        }),
{
    assert(target.take(target.len() as int) =~= target);
}

/// The part of `contents` that `want` bytes from `offset` on cover.
pub open spec fn part_of(contents: Seq<u8>, offset: int, want: int) -> Seq<u8> {
    let from = if offset < contents.len() {
        offset
    } else {
        contents.len() as int
    };
    let to = if offset + want < contents.len() {
        offset + want
    } else {
        contents.len() as int
    };
    contents.subrange(from, to)
}

/// A binary read gives the bytes from its offset on, as many as are wanted and there
/// are; it says how many they are, and that it is the end where they are fewer than
/// wanted.
pub proof fn a_read_gives_what_its_range_covers(
    contents: Seq<u8>,
    offset: u64,
    want: u64,
    read: FsOp,
    event: FsEvent,
    step: FsStep,
)
    requires
        read.action == first_action(FsWish::ReadBytes { offset, want }),
        read_from(contents, read.action, event),
        ends_with(read, event, step),
    ensures
        ({
            let part = part_of(contents, offset as int, want as int);
            step matches FsStep::Reply(Ok(v)) && json::data(v) matches JsonData::Object(m) && m.dom()
                == set!["data"@, "eof"@, "bytes_read"@] && m["data"@] == JsonData::Str(
                base64_text::base64_encoded(part),
            ) && m["eof"@] == JsonData::Bool(part.len() < want) && m["bytes_read"@]
                == JsonData::Unsigned(part.len() as u64)
        }),
{
    let b = event->Bytes_0;
    let part = part_of(contents, offset as int, want as int);
    if offset >= contents.len() {
        assert(part =~= Seq::empty());
    } else if contents.len() - offset < want {
        assert(part =~= contents.skip(offset as int));
    } else {
        assert(part =~= contents.subrange(offset as int, offset + want));
    }
    assert(b@ == part);
    lemma_keys();
    let m = json::data(step->Reply_0->Ok_0)->Object_0;
    assert(m.dom() =~= set!["data"@, "eof"@, "bytes_read"@]);
}

/// The keys of the replies are different texts.
proof fn lemma_keys()
    ensures
        "data"@ != "eof"@,
        "data"@ != "bytes_read"@,
        "eof"@ != "bytes_read"@,
        "size"@ != "is_dir"@,
        "size"@ != "is_file"@,
        "is_dir"@ != "is_file"@,
        "is_dir"@ != "is_symlink"@,
        "is_file"@ != "is_symlink"@,
        "name"@ != "is_dir"@,
        "name"@ != "is_file"@,
        "name"@ != "is_symlink"@,
{
    reveal_strlit("data");
    reveal_strlit("eof");
    reveal_strlit("bytes_read");
    reveal_strlit("size");
    reveal_strlit("is_dir");
    reveal_strlit("is_file");
    reveal_strlit("is_symlink");
    reveal_strlit("name");
    assert("data"@.len() == 4 && "eof"@.len() == 3 && "bytes_read"@.len() == 10);
    assert("size"@.len() == 4 && "is_dir"@.len() == 6 && "is_file"@.len() == 7);
    assert("is_symlink"@.len() == 10 && "name"@.len() == 4);
}

/// The reply to a look at a path holds its size and its kind, as the host found them.
pub proof fn a_look_tells_size_and_kind(
    op: FsOp,
    size: u64,
    is_dir: bool,
    is_file: bool,
    step: FsStep,
)
    requires
        !(op.call.wish is Unlink),
        ends_with(op, FsEvent::Meta { size, is_dir, is_file }, step),
    ensures
        step matches FsStep::Reply(Ok(v)) && json::data(v) matches JsonData::Object(m) && m.dom()
            == set!["size"@, "is_dir"@, "is_file"@] && m["size"@] == JsonData::Unsigned(size)
            && m["is_dir"@] == JsonData::Bool(is_dir) && m["is_file"@] == JsonData::Bool(is_file),
{
    lemma_keys();
    let m = json::data(step->Reply_0->Ok_0)->Object_0;
    assert(m.dom() =~= set!["size"@, "is_dir"@, "is_file"@]);
}

/// `d` is an entry of a directory as the host found it.
pub open spec fn tells_entry(d: JsonData, e: DirEntry) -> bool {
    d matches JsonData::Object(m) && m.dom() == set!["name"@, "is_dir"@, "is_file"@, "is_symlink"@]
        && m["name"@] == JsonData::Str(path::lossy_form(e.name@)) && m["is_dir"@] == JsonData::Bool(
        e.is_dir,
    ) && m["is_file"@] == JsonData::Bool(e.is_file) && m["is_symlink"@] == JsonData::Bool(
        e.is_symlink,
    )
}

/// A listing holds every entry that the host found, in the order in which it found
/// them, and no other.
pub proof fn a_listing_holds_every_entry(op: FsOp, list: Vec<DirEntry>, step: FsStep)
    requires
        ends_with(op, FsEvent::Listed(list), step),
    ensures
        step matches FsStep::Reply(Ok(v)) && json::data(v) matches JsonData::Object(m) && m.dom()
            == set!["entries"@] && (m["entries"@] matches JsonData::Array(items) && items.len()
            == list@.len() && forall|i: int|
            0 <= i < list@.len() ==> tells_entry(#[trigger] items[i], list@[i])),
{
    lemma_keys();
    let m = json::data(step->Reply_0->Ok_0)->Object_0;
    assert(m.dom() =~= set!["entries"@]);
    let items = m["entries"@]->Array_0;
    assert forall|i: int| 0 <= i < list@.len() implies tells_entry(#[trigger] items[i], list@[i]) by {
        let e = items[i]->Object_0;
        assert(items[i] == entry_data(list@[i]));
        assert(e.dom() =~= set!["name"@, "is_dir"@, "is_file"@, "is_symlink"@]);
    }
}

/// A file that was read as text is sent back as it is; a write tells how many bytes
/// were written, all of them; what else was done is answered by an object without
/// members.
pub proof fn what_was_done_is_told(op: FsOp, text: String, step: FsStep)
    ensures
        ends_with(op, FsEvent::Text(text), step) ==> (step matches FsStep::Reply(Ok(v))
            && json::data(v) == JsonData::Object(map!["text"@ => JsonData::Str(text@)])),
        ends_with(op, FsEvent::Done, step) && op.action is Write ==> {
            step matches FsStep::Reply(Ok(v)) && json::data(v) == JsonData::Object(
                map!["bytes_written"@ => JsonData::Unsigned(match op.call.wish {
                    FsWish::Write { text, .. } => encode_utf8(text@).len() as u64,
                    FsWish::WriteBytes { data, .. } => data@.len() as u64,
                    _ => 0,
                })],
            )
        },
        ends_with(op, FsEvent::Done, step) && !(op.action is Write) ==> {
            step matches FsStep::Reply(Ok(v)) && json::data(v) == JsonData::Object(Map::empty())
        },
{
}

/// A path is removed as what it is: a directory as a directory, and anything else as
/// a file.
pub proof fn a_path_is_removed_as_what_it_is(
    op: FsOp,
    size: u64,
    is_dir: bool,
    is_file: bool,
    step: FsStep,
)
    requires
        op.call.wish is Unlink,
        ends_with(op, FsEvent::Meta { size, is_dir, is_file }, step),
    ensures
        step matches FsStep::Act(next) && next.target == op.target && next.call == op.call && (is_dir
            ==> next.action is RemoveDir) && (!is_dir ==> next.action is RemoveFile),
{
}

/// What went wrong is told with the tool, the path of the call and the host's reason.
pub proof fn a_failure_names_tool_path_and_reason(op: FsOp, cause: String, step: FsStep)
    ensures
        ends_with(op, FsEvent::Failed(cause), step) ==> replies(
            step,
            Err(
                op.call.wish.of_tool().called() + " "@ + text::debug_form(op.call.path@) + ": "@
                    + cause@,
            ),
        ),
        ends_with(op, FsEvent::SeekFailed(cause), step) ==> replies(
            step,
            Err(
                op.call.wish.of_tool().called() + " seek "@ + text::debug_form(op.call.path@)
                    + ": "@ + cause@,
            ),
        ),
        ends_with(op, FsEvent::EntryFailed(cause), step) ==> replies(step, Err(cause@)),
{
}

/// The names of the file tools.
pub proof fn the_file_tools_have_these_names(wish: FsWish)
    ensures
        wish.of_tool().called() == match wish {
            FsWish::Read => "fs_read"@,
            FsWish::Write { .. } => "fs_write"@,
            FsWish::List => "fs_list"@,
            FsWish::Stat => "fs_stat"@,
            FsWish::ReadBytes { .. } => "fs_read_bytes"@,
            FsWish::WriteBytes { .. } => "fs_write_bytes"@,
            FsWish::Truncate { .. } => "fs_truncate"@,
            FsWish::Mkdir { .. } => "fs_mkdir"@,
            FsWish::Unlink => "fs_unlink"@,
        },
        wish is Read <==> wish.of_tool() is Read,
        wish is Write <==> wish.of_tool() is Write,
        wish is List <==> wish.of_tool() is List,
        wish is Stat <==> wish.of_tool() is Stat,
        wish is ReadBytes <==> wish.of_tool() is ReadBytes,
        wish is WriteBytes <==> wish.of_tool() is WriteBytes,
        wish is Truncate <==> wish.of_tool() is Truncate,
        wish is Mkdir <==> wish.of_tool() is Mkdir,
        wish is Unlink <==> wish.of_tool() is Unlink,
{
}

/// What a wish is made of stands in the arguments that the guest sent.
pub open spec fn stands_in(wish: FsWish, m: Map<Seq<char>, JsonData>) -> bool {
    match wish {
        FsWish::Write { text, append } => json::text_under(m, "text"@) == Some(text@) && append
            == json::is_on(m, "append"@),
        FsWish::ReadBytes { offset, want } => {
            &&& match json::number_under(m, "offset"@) {
                Some(n) => offset == n,
                None => offset == 0,
            }
            &&& match json::number_under(m, "len"@) {
                Some(n) => want <= n && (n <= 16_777_216 ==> want == n) && (n > 16_777_216 ==> want
                    == 16_777_216),
                None => want == 65536,
            }
        },
        FsWish::WriteBytes { data, at, append } => {
            &&& json::text_under(m, "data"@) is Some
            &&& base64_text::base64_decoded(json::text_under(m, "data"@)->0) == Ok::<
                Seq<u8>,
                Seq<char>,
            >(data@)
            &&& at == json::number_under(m, "offset"@)
            &&& append == json::is_on(m, "append"@)
        },
        FsWish::Truncate { length } => json::number_under(m, "length"@) == Some(length),
        FsWish::Mkdir { parents } => parents == json::is_on(m, "parents"@),
        _ => true,
    }
}

/// A call is decoded to what the guest sent: its path, the tool that was called, and
/// what stands in the arguments for it.
pub proof fn a_call_is_what_the_guest_sent(
    tool: FsTool,
    m: Map<Seq<char>, JsonData>,
    call: FsCall,
)
    requires
        decodes_to(tool, JsonData::Object(m), Ok(call)),
    ensures
        call.wish.of_tool() == tool,
        json::text_under(m, "path"@) == Some(call.path@) || (tool is List && call.path@.len() == 0
            && json::text_under(m, "path"@) is None),
        stands_in(call.wish, m),
{
    reveal_strlit("");
}

/// The member without which a call of `tool` is refused, beside its path, if any.
pub open spec fn is_missing(tool: FsTool, m: Map<Seq<char>, JsonData>, key: Seq<char>) -> bool {
    ||| tool is Write && key == "text"@ && json::text_under(m, key) is None
    ||| tool is WriteBytes && key == "data"@ && json::text_under(m, key) is None
    ||| tool is Truncate && key == "length"@ && json::number_under(m, key) is None
}

/// A call is refused only for what it lacks: a path, which a listing can do without;
/// the text, the data or the length that its tool needs; or data that are base64.
pub proof fn a_call_is_refused_for_what_it_lacks(
    tool: FsTool,
    m: Map<Seq<char>, JsonData>,
    r: Result<FsCall, String>,
    key: Seq<char>,
)
    requires
        decodes_to(tool, JsonData::Object(m), r),
    ensures
        json::text_under(m, "path"@) is None && !(tool is List) ==> (r matches Err(e) && e@
            == tool.called() + ": missing '"@ + "path"@ + "'"@),
        json::text_under(m, "path"@) is Some && is_missing(tool, m, key) ==> (r matches Err(e) && e@
            == tool.called() + ": missing '"@ + key + "'"@),
        json::text_under(m, "path"@) is Some && tool is WriteBytes ==> match json::text_under(
            m,
            "data"@,
        ) {
            Some(t) => match base64_text::base64_decoded(t) {
                Err(cause) => r matches Err(e) && e@ == "fs_write_bytes: bad base64: "@ + cause,
                Ok(_) => r is Ok,
            },
            None => r is Err,
        },
        r is Err ==> (json::text_under(m, "path"@) is None && !(tool is List)) || is_missing(
            tool,
            m,
            "text"@,
        ) || is_missing(tool, m, "data"@) || is_missing(tool, m, "length"@) || (tool is WriteBytes
            && (json::text_under(m, "data"@) matches Some(t) && base64_text::base64_decoded(
            t,
        ) is Err)),
{
    reveal_strlit("text");
    reveal_strlit("data");
    reveal_strlit("length");
}

/// A call that goes on is about its own path: it is resolved under the directory of a
/// mount, along what is behind the guest path of that mount.
pub proof fn a_call_is_resolved_under_its_mount(
    call: FsCall,
    routes: Seq<Route>,
    c: FsCall,
    resolution: Resolution,
) -> (at: int)
    requires
        begins(call, routes, FsStep::Ask(c, resolution)),
    ensures
        c == call,
        0 <= at < routes.len(),
        resolution.root@ == routes[at].1,
        call.path@ == routes[at].0 + seq!['/'] + resolution.guest_path@ || (call.path@
            == routes[at].0 && resolution.guest_path@.len() == 0),
        fs_sandbox::logical_path(resolution.root@, resolution.guest_path@) == Some(
            resolution.logical@,
        ),
{
    lemma_matched(routes, call.path@)
}

/// The mount of a match.
proof fn lemma_matched(routes: Seq<Route>, path: Seq<char>) -> (at: int)
    requires
        fs_router::first_match(routes, path) is Some,
    ensures
        0 <= at < routes.len(),
        ({
            let (root, tail) = fs_router::first_match(routes, path)->0;
            root == routes[at].1 && (path == routes[at].0 + seq!['/'] + tail || (path
                == routes[at].0 && tail.len() == 0))
        }),
    decreases routes.len(),
{
    fs_router::a_path_is_its_mount_and_its_tail(routes[0].0, path, Seq::empty());
    if fs_router::tail_behind(routes[0].0, path) is Some {
        0
    } else {
        let rest = routes.drop_first();
        let k = lemma_matched(rest, path);
        assert(rest[k] == routes[k + 1]);
        k + 1
    }
}

/// A path that is resolved is acted on, and one that is refused is answered with the
/// reason: nothing else comes of resolving it.
pub proof fn a_resolved_path_is_acted_on(
    call: FsCall,
    root: Names,
    rel: Seq<char>,
    logical: Names,
    found: Names,
    e: fs_sandbox::ErrorModel,
    step: FsStep,
)
    ensures
        resolving(call, root, rel, logical, fs_sandbox::StepModel::Done(found), step) ==> {
            step matches FsStep::Act(op) && op.target@ == found && op.call == call && op.action
                == first_action(call.wish)
        },
        resolving(call, root, rel, logical, fs_sandbox::StepModel::Failed(e), step) ==> {
            step matches FsStep::Reply(Err(m)) && m@ == e.wording()
        },
{
}

/// A path that no mount matches is answered so.
pub proof fn a_path_without_a_mount_is_refused(call: FsCall, routes: Seq<Route>, step: FsStep)
    requires
        begins(call, routes, step),
        forall|i: int| 0 <= i < routes.len() ==> call.path@ != (#[trigger] routes[i]).0,
        forall|i: int|
            0 <= i < routes.len() ==> !((#[trigger] routes[i]).0 + seq!['/']).is_prefix_of(
                call.path@,
            ),
    ensures
        replies(
            step,
            Err(
                "path "@ + text::debug_form(call.path@) + " does not match any preopened mount"@,
            ),
        ),
{
    fs_router::a_path_outside_every_mount_goes_nowhere(routes, call.path@);
}

} // verus!
