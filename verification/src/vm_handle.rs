//! VM handles for embedding in hosts that are not written in Rust.
//!
//! The foreign-function surface itself deals in raw pointers. What a request
//! asks for, and how the status of a handle changes, is decided here.

use crate::initdata;
use crate::initdata::prepend_cmdline_to_initrd;
use crate::mount::Preopen;
use crate::sandbox;
use crate::text;
use crate::text::owned;
use vstd::prelude::*;
use vstd::string::*;

verus! {

/// Status code of a VM that was not started yet.
pub const HL_STATUS_CREATED: i32 = 0;

/// Status code of a VM that runs.
pub const HL_STATUS_RUNNING: i32 = 1;

/// Status code of a VM that came to its end.
pub const HL_STATUS_STOPPED: i32 = 2;

/// Status code of a VM that failed.
pub const HL_STATUS_ERROR: i32 = 3;

// ---------------------------------------------------------------------------
// Creating
// ---------------------------------------------------------------------------

/// A C string, as it was found behind a pointer.
#[derive(Debug, PartialEq, Eq)]
pub enum CText {
    /// The pointer is null.
    Null,
    /// The text.
    Text(String),
    /// The bytes are not text, for this reason.
    Invalid(String),
}

/// An initrd file, as it was found behind a pointer to its path.
#[derive(Debug, PartialEq, Eq)]
pub enum CFile {
    /// The pointer is null.
    Null,
    /// The path is not text, for this reason.
    Invalid(String),
    /// The file at this path, or the reason why it could not be read.
    At(String, Result<Vec<u8>, String>),
}

/// What a VM is to be created from.
#[derive(Debug, PartialEq, Eq)]
pub struct VmRequest {
    pub kernel_path: CText,
    pub initrd: CFile,
    pub app_args: Vec<CText>,
    pub heap_size: u64,
    pub stack_size: u64,
}

/// A VM that was created: its status, the error that it ended with, if it did, and
/// what it will be started from.
#[derive(Debug, PartialEq, Eq)]
pub struct VmSpec {
    pub status: i32,
    pub error: Option<String>,
    pub kernel_path: String,
    pub initrd_data: Option<Vec<u8>>,
    pub heap_size: u64,
    pub stack_size: u64,
}

/// The texts among some C strings; those that are null or no text are left out.
pub open spec fn texts_in(list: Seq<CText>) -> Seq<Seq<char>>
    decreases list.len(),
{
    if list.len() == 0 {
        Seq::empty()
    } else {
        let before = texts_in(list.drop_last());
        match list.last() {
            CText::Text(t) => before.push(t@),
            _ => before,
        }
    }
}

fn kept_args(list: &[CText]) -> (r: Vec<String>)
    ensures
        text::texts(r@) == texts_in(list@),
{
    let mut out: Vec<String> = Vec::new();
    assert(list@.take(0) =~= Seq::empty());
    assert(text::texts(out@) =~= texts_in(list@.take(0)));
    for i in 0..list.len()
        invariant
            text::texts(out@) == texts_in(list@.take(i as int)),
    {
        let ghost before = out@;
        assert(list@.take(i + 1).drop_last() =~= list@.take(i as int));
        if let CText::Text(t) = &list[i] {
            out.push(owned(t.as_str()));
            assert(text::texts(out@) =~= text::texts(before).push(t@));
        }
    }
    assert(list@.take(list@.len() as int) =~= list@);
    out
}

/// Why a request is rejected, if it is.
pub open spec fn request_error(request: Option<VmRequest>) -> Option<Seq<char>> {
    match request {
        None => Some("config is null"@),
        Some(q) => match q.kernel_path {
            CText::Null => Some("kernel_path is null"@),
            CText::Invalid(e) => Some("invalid kernel_path: "@ + e@),
            CText::Text(_) => match q.initrd {
                CFile::Null => None,
                CFile::Invalid(e) => Some("invalid initrd_path: "@ + e@),
                CFile::At(path, Err(e)) => Some("failed to read initrd "@ + path@ + ": "@ + e@),
                CFile::At(_, Ok(_)) => None,
            },
        },
    }
}

/// The initrd in a request.
pub open spec fn request_initrd(q: VmRequest) -> Option<Seq<u8>> {
    match q.initrd {
        CFile::At(_, Ok(data)) => Some(data@),
        _ => None,
    }
}

/// Create a VM from a request, or say why not. The arguments are put before the
/// initrd.
pub fn create_vm(request: Option<VmRequest>) -> (r: Result<VmSpec, String>)
    ensures
        match r {
            Err(m) => request_error(request) == Some(m@),
            Ok(vm) => {
                &&& request_error(request) is None
                &&& vm.status == HL_STATUS_CREATED
                &&& vm.error is None
                &&& request matches Some(q) && q.kernel_path matches CText::Text(path)
                    && vm.kernel_path == path && vm.heap_size == q.heap_size && vm.stack_size
                    == q.stack_size && exists|args: Seq<String>, none: Seq<Preopen>, wall_ns: u64|
                    text::texts(args) == texts_in(q.app_args@) && none.len() == 0
                        && sandbox::init_bytes(vm.initrd_data) == #[trigger] sandbox::inline_data(
                        request_initrd(q),
                        args,
                        none,
                        wall_ns,
                    )
            },
        },
{
    let q = match request {
        None => {
            return Err(owned("config is null"));
        },
        Some(q) => q,
    };
    let kernel_path = match q.kernel_path {
        CText::Null => {
            return Err(owned("kernel_path is null"));
        },
        CText::Invalid(e) => {
            let mut out = owned("invalid kernel_path: ");
            out.append(e.as_str());
            return Err(out);
        },
        CText::Text(t) => t,
    };
    let initrd: Option<Vec<u8>> = match q.initrd {
        CFile::Null => None,
        CFile::Invalid(e) => {
            let mut out = owned("invalid initrd_path: ");
            out.append(e.as_str());
            return Err(out);
        },
        CFile::At(path, read) => match read {
            Ok(data) => Some(data),
            Err(e) => {
                let mut out = owned("failed to read initrd ");
                out.append(path.as_str());
                out.append(": ");
                out.append(e.as_str());
                return Err(out);
            },
        },
    };
    let args = kept_args(&q.app_args);
    let none: Vec<Preopen> = Vec::new();
    let initrd_ref: Option<&[u8]> = match &initrd {
        Some(data) => Some(data.as_slice()),
        None => None,
    };
    let initrd_data = prepend_cmdline_to_initrd(initrd_ref, &args, &none);
    proof {
        let bytes = initdata::initrd_bytes(initrd_ref);
        assert(bytes == request_initrd(request->0));
        let wall_ns = if initdata::cmdline_text(args@).len() == 0 {
            0
        } else {
            choose|wall_ns: u64|
                initrd_data->0@ == #[trigger] initdata::prefixed_initrd(
                    initdata::blocks_for(args@, none@, wall_ns),
                    bytes,
                )
        };
        assert(sandbox::init_bytes(initrd_data) == sandbox::inline_data(
            bytes,
            args@,
            none@,
            wall_ns,
        ));
    }
    Ok(
        VmSpec {
            status: HL_STATUS_CREATED,
            error: None,
            kernel_path,
            initrd_data,
            heap_size: q.heap_size,
            stack_size: q.stack_size,
        },
    )
}

/// The size of the guest's memory region, which holds the heap and the stack.
pub fn guest_region(heap_size: u64, stack_size: u64) -> (r: u64)
    requires
        heap_size + stack_size <= u64::MAX,
    ensures
        r == heap_size + stack_size,
{
    heap_size + stack_size
}

/// Check that there is a kernel at the path of a VM.
pub fn check_kernel(kernel_path: &str, exists: bool) -> (r: Result<(), String>)
    ensures
        match r {
            Ok(_) => exists,
            Err(m) => !exists && m@ == "kernel not found: "@ + kernel_path@,
        },
{
    if exists {
        return Ok(());
    }
    let mut out = owned("kernel not found: ");
    out.append(kernel_path);
    Err(out)
}

// ---------------------------------------------------------------------------
// Running
// ---------------------------------------------------------------------------

/// What can happen to a VM.
pub enum VmChange {
    /// It is to be started.
    Start,
    /// It came to its end.
    Stopped,
    /// It failed.
    Failed,
}

/// The status after a change, if the change can happen: a VM is started once, and
/// what was started ends one way or the other.
pub open spec fn next_status(status: i32, change: VmChange) -> Option<i32> {
    match change {
        VmChange::Start => if status == HL_STATUS_CREATED {
            Some(HL_STATUS_RUNNING)
        } else {
            None
        },
        VmChange::Stopped => if status == HL_STATUS_RUNNING {
            Some(HL_STATUS_STOPPED)
        } else {
            None
        },
        VmChange::Failed => if status == HL_STATUS_RUNNING {
            Some(HL_STATUS_ERROR)
        } else {
            None
        },
    }
}

/// The status of a VM that is started.
pub fn start_vm(status: i32) -> (r: Result<i32, String>)
    ensures
        match r {
            Ok(next) => next_status(status, VmChange::Start) == Some(next),
            Err(m) => next_status(status, VmChange::Start) is None && m@
                == "VM is not in CREATED state"@,
        },
{
    if status == HL_STATUS_CREATED {
        Ok(HL_STATUS_RUNNING)
    } else {
        Err(owned("VM is not in CREATED state"))
    }
}

/// The status of a VM that ended, and the error to keep.
pub fn finish_vm(result: Result<(), String>) -> (r: (i32, Option<String>))
    ensures
        match result {
            Ok(_) => r.1 is None && next_status(HL_STATUS_RUNNING, VmChange::Stopped) == Some(r.0),
            Err(m) => r.1 == Some(m) && next_status(HL_STATUS_RUNNING, VmChange::Failed) == Some(
                r.0,
            ),
        },
{
    match result {
        Ok(_) => (HL_STATUS_STOPPED, None),
        Err(m) => (HL_STATUS_ERROR, Some(m)),
    }
}

// ---------------------------------------------------------------------------
// Laws
// ---------------------------------------------------------------------------

/// The status after some changes, if they can happen one after the other.
pub open spec fn status_after(status: i32, changes: Seq<VmChange>) -> Option<i32>
    decreases changes.len(),
{
    if changes.len() == 0 {
        Some(status)
    } else {
        match status_after(status, changes.drop_last()) {
            Some(s) => next_status(s, changes.last()),
            None => None,
        }
    }
}

/// A VM is started at most once: whatever has happened since it was started, it
/// cannot be started again.
pub proof fn a_vm_is_started_at_most_once(changes: Seq<VmChange>)
    requires
        changes.len() > 0,
        changes[0] is Start,
    ensures
        status_after(HL_STATUS_CREATED, changes.push(VmChange::Start)) is None,
{
    lemma_not_created(changes);
    assert(changes.push(VmChange::Start).drop_last() =~= changes);
}

proof fn lemma_not_created(changes: Seq<VmChange>)
    requires
        changes.len() > 0,
        changes[0] is Start,
    ensures
        status_after(HL_STATUS_CREATED, changes) != Some(HL_STATUS_CREATED),
    decreases changes.len(),
{
    if changes.len() == 1 {
        assert(changes.drop_last() =~= Seq::empty());
        assert(status_after(HL_STATUS_CREATED, changes.drop_last()) == Some(HL_STATUS_CREATED));
    } else {
        lemma_not_created(changes.drop_last());
    }
}

/// A VM that came to its end stays there.
pub proof fn an_ended_vm_stays_ended(status: i32, change: VmChange)
    requires
        status == HL_STATUS_STOPPED || status == HL_STATUS_ERROR,
    ensures
        next_status(status, change) is None,
{
}

/// The status codes of a VM.
pub proof fn the_status_codes_are_these()
    ensures
        HL_STATUS_CREATED == 0,
        HL_STATUS_RUNNING == 1,
        HL_STATUS_STOPPED == 2,
        HL_STATUS_ERROR == 3,
{
}

/// A VM that was created can be started, and runs then; what runs comes to its end or
/// fails; nothing else can happen to a VM.
pub proof fn a_vm_is_created_runs_and_ends(status: i32, next: i32)
    ensures
        next_status(status, VmChange::Start) == Some(next) <==> status == 0 && next == 1,
        next_status(status, VmChange::Stopped) == Some(next) <==> status == 1 && next == 2,
        next_status(status, VmChange::Failed) == Some(next) <==> status == 1 && next == 3,
{
}

/// The arguments of a request are its texts, in their order; what is null or no text is
/// left out.
pub proof fn texts_keep_their_order(a: Seq<CText>, b: Seq<CText>, one: CText)
    ensures
        texts_in(a + b) == texts_in(a) + texts_in(b),
        texts_in(seq![one]) == match one {
            CText::Text(t) => seq![t@],
            CText::Null => Seq::<Seq<char>>::empty(),
            CText::Invalid(_) => Seq::<Seq<char>>::empty(),
        },
    decreases b.len(),
{
    let single = seq![one];
    assert(single.drop_last() =~= Seq::empty());
    assert(texts_in(single.drop_last()) =~= Seq::empty());
    if one is Text {
        assert(Seq::<Seq<char>>::empty().push(one->Text_0@) =~= seq![one->Text_0@]);
    }
    if b.len() == 0 {
        assert(a + b =~= a);
        assert(texts_in(b) =~= Seq::empty());
        assert(texts_in(a) + texts_in(b) =~= texts_in(a));
    } else {
        assert((a + b).drop_last() =~= a + b.drop_last());
        texts_keep_their_order(a, b.drop_last(), one);
        assert(texts_in(a + b) =~= texts_in(a) + texts_in(b));
    }
}

/// A request is granted where it has the path of a kernel, and an initrd that could be
/// read or none; otherwise the first thing that is wrong is told.
pub proof fn a_request_is_granted_where_nothing_is_wrong(q: VmRequest)
    ensures
        request_error(None) == Some("config is null"@),
        request_error(Some(q)) is None <==> q.kernel_path is Text && (q.initrd is Null || (
        q.initrd matches CFile::At(_, read) && read is Ok)),
        q.kernel_path is Null ==> request_error(Some(q)) == Some("kernel_path is null"@),
        q.kernel_path matches CText::Invalid(e) ==> request_error(Some(q)) == Some(
            "invalid kernel_path: "@ + e@,
        ),
        q.kernel_path is Text ==> (q.initrd matches CFile::Invalid(e) ==> request_error(Some(q))
            == Some("invalid initrd_path: "@ + e@)),
        q.kernel_path is Text ==> (q.initrd matches CFile::At(path, Err(e)) ==> request_error(
            Some(q),
        ) == Some("failed to read initrd "@ + path@ + ": "@ + e@)),
        request_initrd(q) == match q.initrd {
            CFile::At(_, Ok(data)) => Some(data@),
            _ => None,
        },
{
}

} // verus!
