//! Booting a sandbox, and its life afterwards.
//!
//! The builder and the single-shot functions decide what a boot is made of: the
//! init data, the memory sizes, the file to map, and the tools. The result is a
//! [`BootPlan`] for the host to carry out. [`Sandbox`] is what is kept of a sandbox
//! that runs.

use crate::initdata;
use crate::initdata::{build_cmdline_initdata, prepend_cmdline_to_initrd};
use crate::memory::{SandboxSizes, VmConfig, DEFAULT_HEAP_SIZE, DEFAULT_STACK_SIZE};
use crate::mount::Preopen;
use crate::net_policy::{ListenPorts, NetworkPolicy};
use crate::path;
use crate::path::{lossy_text, shown_bytes};
use crate::registry;
use crate::registry::{sandbox_tools, ToolRegistry};
use crate::text::owned;
use std::time::Duration;
use vstd::prelude::*;
use vstd::string::*;

verus! {

/// Where a mapped initrd is placed: at 3 GiB, high enough not to overlap any
/// reasonable primary memory region, within the 4 GiB identity map.
pub const INITRD_MAP_BASE: u64 = 0xC000_0000;

// ---------------------------------------------------------------------------
// Boot plans
// ---------------------------------------------------------------------------

/// What the host says of an initrd file.
#[derive(Debug, PartialEq, Eq)]
pub enum FileProbe {
    /// There is no such file.
    Missing,
    /// Its size could not be read, for this reason.
    Unreadable(String),
    /// It has this size.
    Size(u64),
}

/// Why a sandbox was not booted.
#[derive(Debug, PartialEq, Eq)]
pub enum BootError {
    /// There is no kernel at this path.
    KernelNotFound(Vec<u8>),
    /// There is no initrd at this path.
    InitrdNotFound(Vec<u8>),
    /// The size of the initrd could not be read, for this reason.
    Host(String),
}

impl BootError {
    /// The wording for this error.
    pub open spec fn wording(&self) -> Seq<char> {
        match self {
            BootError::KernelNotFound(p) => "Kernel not found: "@ + path::shown_form(p@),
            BootError::InitrdNotFound(p) => "Initrd not found: "@ + path::shown_form(p@),
            BootError::Host(m) => m@,
        }
    }

    /// The wording for this error.
    pub fn message(&self) -> (r: String)
        ensures
            r@ == self.wording(),
    {
        match self {
            BootError::KernelNotFound(p) => {
                let mut out = owned("Kernel not found: ");
                out.append(shown_bytes(p).as_str());
                out
            },
            BootError::InitrdNotFound(p) => {
                let mut out = owned("Initrd not found: ");
                out.append(shown_bytes(p).as_str());
                out
            },
            BootError::Host(m) => owned(m.as_str()),
        }
    }
}

/// What a boot is made of.
pub struct BootPlan<F> {
    /// The kernel to load, as the loader is told.
    pub kernel: String,
    /// The data that is handed to the guest.
    pub init_data: Option<Vec<u8>>,
    /// The memory sizes.
    pub sizes: SandboxSizes,
    /// The file to map as the initrd, if one is to be mapped.
    pub mapped_file: Option<Vec<u8>>,
    /// Where a mapped initrd is placed.
    pub map_base: u64,
    /// The tools that the guest can call.
    pub tools: ToolRegistry<F>,
    /// The mounts.
    pub preopens: Vec<Preopen>,
    /// Which destinations the guest can reach, if any.
    pub network: Option<NetworkPolicy>,
    /// Which ports the guest can bind to, if any.
    pub listen_ports: Option<ListenPorts>,
}

/// The bytes of some init data.
pub open spec fn init_bytes(init_data: Option<Vec<u8>>) -> Option<Seq<u8>> {
    match init_data {
        Some(b) => Some(b@),
        None => None,
    }
}

/// The init data for an initrd in memory, with this wall clock. Where there are
/// neither arguments nor mounts, it is the initrd itself.
pub open spec fn inline_data(
    initrd: Option<Seq<u8>>,
    args: Seq<String>,
    preopens: Seq<Preopen>,
    wall_ns: u64,
) -> Option<Seq<u8>> {
    if initdata::cmdline_text(args).len() == 0 && preopens.len() == 0 {
        initrd
    } else {
        Some(initdata::prefixed_initrd(initdata::blocks_for(args, preopens, wall_ns), initrd))
    }
}

/// The init data for an initrd that is mapped from a file of this size, with this
/// wall clock. There is none where there is nothing to say.
pub open spec fn mapped_data(
    args: Seq<String>,
    size: u64,
    preopens: Seq<Preopen>,
    wall_ns: u64,
) -> Option<Seq<u8>> {
    if initdata::cmdline_text(args).len() == 0 && size == 0 && preopens.len() == 0 {
        None
    } else {
        Some(initdata::initdata(initdata::blocks_for(args, preopens, wall_ns), size))
    }
}

/// What a boot starts from, beside its initrd.
pub struct BootBase<F> {
    /// The path of the kernel.
    pub kernel: Vec<u8>,
    /// Whether there is a file at that path.
    pub kernel_exists: bool,
    /// The application arguments.
    pub args: Vec<String>,
    /// The memory sizes.
    pub config: VmConfig,
    /// The tools of the caller, if there are any.
    pub tools: Option<ToolRegistry<F>>,
    /// The mounts.
    pub preopens: Vec<Preopen>,
    /// Which destinations the guest can reach, if any.
    pub network: Option<NetworkPolicy>,
    /// Which ports the guest can bind to, if any.
    pub listen_ports: Option<ListenPorts>,
}

/// `plan` is what a boot is made of that starts from `base`, but for its initrd.
pub open spec fn plan_for<F>(base: BootBase<F>, plan: BootPlan<F>) -> bool {
    &&& base.kernel_exists
    &&& plan.kernel@ == path::lossy_form(base.kernel@)
    &&& plan.sizes.heap_size == base.config.heap_size
    &&& plan.sizes.scratch_size == crate::memory::scratch_size(base.config.heap_size as int)
    &&& plan.preopens == base.preopens
    &&& plan.network == base.network
    &&& plan.listen_ports == base.listen_ports
    &&& forall|n: Seq<char>|
        #[trigger] plan.tools.tool(n) == registry::sandbox_tool(
            base.tools,
            base.preopens@.len() > 0,
            base.network is Some,
            n,
        )
}

fn planned<F>(
    base: BootBase<F>,
    init_data: Option<Vec<u8>>,
    mapped_file: Option<Vec<u8>>,
    map_base: u64,
) -> (r: BootPlan<F>)
    requires
        base.kernel_exists,
    ensures
        plan_for(base, r),
        r.init_data == init_data,
        r.mapped_file == mapped_file,
        r.map_base == map_base,
{
    let kernel = lossy_text(&base.kernel);
    let sizes = base.config.sandbox_config();
    let tools = sandbox_tools(base.tools, base.preopens.len() > 0, base.network.is_some());
    BootPlan {
        kernel,
        init_data,
        sizes,
        mapped_file,
        map_base,
        tools,
        preopens: base.preopens,
        network: base.network,
        listen_ports: base.listen_ports,
    }
}

/// `r` is the plan of a boot from `base` with this initrd, or the error that there
/// is no kernel.
pub open spec fn boots_inline<F>(
    base: BootBase<F>,
    initrd: Option<Seq<u8>>,
    r: Result<BootPlan<F>, BootError>,
) -> bool {
    match r {
        Ok(plan) => {
            &&& plan_for(base, plan)
            &&& plan.mapped_file is None
            &&& plan.map_base == 0
            &&& exists|wall_ns: u64|
                init_bytes(plan.init_data) == #[trigger] inline_data(
                    initrd,
                    base.args@,
                    base.preopens@,
                    wall_ns,
                )
        },
        Err(BootError::KernelNotFound(p)) => !base.kernel_exists && p@ == base.kernel@,
        Err(_) => false,
    }
}

/// Low-level: boot with an in-memory initrd. Prefer the builder.
pub fn evolve_inline<F>(base: BootBase<F>, initrd: Option<&[u8]>) -> (r: Result<
    BootPlan<F>,
    BootError,
>)
    ensures
        boots_inline(base, initdata::initrd_bytes(initrd), r),
{
    if !base.kernel_exists {
        return Err(BootError::KernelNotFound(base.kernel));
    }
    let init_data = prepend_cmdline_to_initrd(initrd, &base.args, &base.preopens);
    proof {
        if initdata::cmdline_text(base.args@).len() == 0 && base.preopens@.len() == 0 {
            assert(init_bytes(init_data) == inline_data(
                initdata::initrd_bytes(initrd),
                base.args@,
                base.preopens@,
                0,
            ));
        } else {
            let wall_ns = choose|wall_ns: u64|
                init_data->0@ == #[trigger] initdata::prefixed_initrd(
                    initdata::blocks_for(base.args@, base.preopens@, wall_ns),
                    initdata::initrd_bytes(initrd),
                );
            assert(init_bytes(init_data) == inline_data(
                initdata::initrd_bytes(initrd),
                base.args@,
                base.preopens@,
                wall_ns,
            ));
        }
    }
    Ok(planned(base, init_data, None, 0))
}

/// The size in a probe.
pub open spec fn probed_size(initrd: Option<(Vec<u8>, FileProbe)>) -> Option<u64> {
    match initrd {
        None => Some(0),
        Some((_, FileProbe::Size(n))) => Some(n),
        _ => None,
    }
}

/// The file in a probe.
pub open spec fn probed_file(initrd: Option<(Vec<u8>, FileProbe)>) -> Option<Vec<u8>> {
    match initrd {
        Some((file, _)) => Some(file),
        None => None,
    }
}

/// `r` is the plan of a boot from `base` with this initrd file, or the error that
/// there is no kernel, no initrd, or no size of it.
pub open spec fn boots_mapped<F>(
    base: BootBase<F>,
    initrd: Option<(Vec<u8>, FileProbe)>,
    r: Result<BootPlan<F>, BootError>,
) -> bool {
    match r {
        Ok(plan) => {
            &&& plan_for(base, plan)
            &&& plan.mapped_file == probed_file(initrd)
            &&& plan.map_base == INITRD_MAP_BASE
            &&& probed_size(initrd) is Some
            &&& exists|wall_ns: u64|
                init_bytes(plan.init_data) == #[trigger] mapped_data(
                    base.args@,
                    probed_size(initrd)->0,
                    base.preopens@,
                    wall_ns,
                )
        },
        Err(BootError::KernelNotFound(p)) => !base.kernel_exists && p@ == base.kernel@,
        Err(BootError::InitrdNotFound(p)) => base.kernel_exists && initrd == Some(
            (p, FileProbe::Missing),
        ),
        Err(BootError::Host(m)) => base.kernel_exists && (initrd matches Some((_, probe)) && probe
            == FileProbe::Unreadable(m)),
    }
}

/// Low-level: boot with a zero-copy mapped initrd file. Prefer the builder.
pub fn evolve_mapped<F>(base: BootBase<F>, initrd: Option<(Vec<u8>, FileProbe)>) -> (r: Result<
    BootPlan<F>,
    BootError,
>)
    ensures
        boots_mapped(base, initrd, r),
{
    if !base.kernel_exists {
        return Err(BootError::KernelNotFound(base.kernel));
    }
    let ghost asked = initrd;
    let (file, size): (Option<Vec<u8>>, u64) = match initrd {
        None => (None, 0),
        Some((file, probe)) => match probe {
            FileProbe::Missing => {
                return Err(BootError::InitrdNotFound(file));
            },
            FileProbe::Unreadable(m) => {
                return Err(BootError::Host(m));
            },
            FileProbe::Size(n) => (Some(file), n),
        },
    };
    let init_data = build_cmdline_initdata(&base.args, size, &base.preopens);
    proof {
        assert(probed_size(asked) == Some(size));
        if init_data is None {
            assert(init_bytes(init_data) == mapped_data(base.args@, size, base.preopens@, 0));
        } else {
            let wall_ns = choose|wall_ns: u64|
                init_data->0@ == #[trigger] initdata::initdata(
                    initdata::blocks_for(base.args@, base.preopens@, wall_ns),
                    size,
                );
            assert(init_bytes(init_data) == mapped_data(base.args@, size, base.preopens@, wall_ns));
        }
    }
    Ok(planned(base, init_data, file, INITRD_MAP_BASE))
}

// ---------------------------------------------------------------------------
// The builder
// ---------------------------------------------------------------------------

/// Where the initrd comes from: a file that is mapped, or a buffer in memory that
/// is copied.
#[derive(Debug, PartialEq, Eq)]
pub enum InitrdSource {
    File(Vec<u8>),
    Bytes(Vec<u8>),
}

/// Fluent builder for a sandbox.
pub struct SandboxBuilder<F> {
    pub kernel: Vec<u8>,
    pub initrd: Option<InitrdSource>,
    pub args: Vec<String>,
    pub heap_size: Option<u64>,
    pub stack_size: Option<u64>,
    pub preopens: Vec<Preopen>,
    pub network: Option<NetworkPolicy>,
    pub listen_ports: Option<ListenPorts>,
    pub tools: ToolRegistry<F>,
    pub has_tools: bool,
}

/// The memory sizes that were asked for, or the defaults.
pub open spec fn built_config(heap_size: Option<u64>, stack_size: Option<u64>) -> VmConfig {
    VmConfig {
        heap_size: match heap_size {
            Some(n) => n,
            None => DEFAULT_HEAP_SIZE,
        },
        stack_size: match stack_size {
            Some(n) => n,
            None => DEFAULT_STACK_SIZE,
        },
    }
}

impl<F> SandboxBuilder<F> {
    /// The initrd CPIO archive, mapped zero-copy into guest memory.
    pub fn initrd_file(self, path: Vec<u8>) -> (r: Self)
        ensures
            r == (SandboxBuilder { initrd: Some(InitrdSource::File(path)), ..self }),
    {
        SandboxBuilder { initrd: Some(InitrdSource::File(path)), ..self }
    }

    /// An in-memory initrd buffer.
    pub fn initrd_bytes(self, bytes: Vec<u8>) -> (r: Self)
        ensures
            r == (SandboxBuilder { initrd: Some(InitrdSource::Bytes(bytes)), ..self }),
    {
        SandboxBuilder { initrd: Some(InitrdSource::Bytes(bytes)), ..self }
    }

    /// Application arguments, passed to the guest via the cmdline header.
    pub fn args(self, args: Vec<String>) -> (r: Self)
        ensures
            r == (SandboxBuilder { args, ..self }),
    {
        SandboxBuilder { args, ..self }
    }

    /// Append a single argument. Repeatable.
    pub fn arg(self, arg: String) -> (r: Self)
        ensures
            r.args@ == self.args@.push(arg),
            r == (SandboxBuilder { args: r.args, ..self }),
    {
        let mut out = self;
        out.args.push(arg);
        out
    }

    /// Guest heap size in bytes (default 512 MiB).
    pub fn heap_size(self, bytes: u64) -> (r: Self)
        ensures
            r == (SandboxBuilder { heap_size: Some(bytes), ..self }),
    {
        SandboxBuilder { heap_size: Some(bytes), ..self }
    }

    /// Guest stack size in bytes (default 8 MiB).
    pub fn stack_size(self, bytes: u64) -> (r: Self)
        ensures
            r == (SandboxBuilder { stack_size: Some(bytes), ..self }),
    {
        SandboxBuilder { stack_size: Some(bytes), ..self }
    }

    /// Expose a host directory to the guest. Repeatable: call multiple times to
    /// expose several directories.
    pub fn preopen(self, preopen: Preopen) -> (r: Self)
        ensures
            r.preopens@ == self.preopens@.push(preopen),
            r == (SandboxBuilder { preopens: r.preopens, ..self }),
    {
        let mut out = self;
        out.preopens.push(preopen);
        out
    }

    /// Enable guest networking with the given policy.
    pub fn network(self, policy: NetworkPolicy) -> (r: Self)
        ensures
            r == (SandboxBuilder { network: Some(policy), ..self }),
    {
        SandboxBuilder { network: Some(policy), ..self }
    }

    /// Allow the guest to bind to the given ports for inbound connections.
    pub fn listen_ports(self, ports: ListenPorts) -> (r: Self)
        ensures
            r == (SandboxBuilder { listen_ports: Some(ports), ..self }),
    {
        SandboxBuilder { listen_ports: Some(ports), ..self }
    }

    /// Register a host function callable from the guest.
    pub fn tool(self, name: &str, handler: F) -> (r: Self)
        ensures
            forall|n: Seq<char>|
                #[trigger] r.tools.tool(n) == if n == name@ {
                    Some(registry::Tool::User(handler))
                } else {
                    self.tools.tool(n)
                },
            r == (SandboxBuilder { tools: r.tools, has_tools: true, ..self }),
    {
        let mut out = self;
        out.tools.register(name, handler);
        out.has_tools = true;
        out
    }

    /// What this boot starts from, beside its initrd.
    pub open spec fn base(self, kernel_exists: bool) -> BootBase<F> {
        BootBase {
            kernel: self.kernel,
            kernel_exists,
            args: self.args,
            config: built_config(self.heap_size, self.stack_size),
            tools: if self.has_tools {
                Some(self.tools)
            } else {
                None
            },
            preopens: self.preopens,
            network: self.network,
            listen_ports: self.listen_ports,
        }
    }

    /// Plan the boot, given what the host says of the kernel and of the initrd
    /// file. An initrd in memory is handed over inline; a file, or no initrd, goes
    /// the mapped way.
    pub fn build(self, kernel_exists: bool, initrd_file: FileProbe) -> (r: Result<
        BootPlan<F>,
        BootError,
    >)
        ensures
            match self.initrd {
                Some(InitrdSource::File(file)) => boots_mapped(
                    self.base(kernel_exists),
                    Some((file, initrd_file)),
                    r,
                ),
                Some(InitrdSource::Bytes(bytes)) => boots_inline(
                    self.base(kernel_exists),
                    Some(bytes@),
                    r,
                ),
                None => boots_mapped(self.base(kernel_exists), None, r),
            },
    {
        let config = VmConfig {
            heap_size: match self.heap_size {
                Some(n) => n,
                None => DEFAULT_HEAP_SIZE,
            },
            stack_size: match self.stack_size {
                Some(n) => n,
                None => DEFAULT_STACK_SIZE,
            },
        };
        let tools = if self.has_tools {
            Some(self.tools)
        } else {
            None
        };
        let base = BootBase {
            kernel: self.kernel,
            kernel_exists,
            args: self.args,
            config,
            tools,
            preopens: self.preopens,
            network: self.network,
            listen_ports: self.listen_ports,
        };
        match self.initrd {
            Some(InitrdSource::File(file)) => evolve_mapped(base, Some((file, initrd_file))),
            Some(InitrdSource::Bytes(bytes)) => {
                let initrd: Option<&[u8]> = Some(bytes.as_slice());
                evolve_inline(base, initrd)
            },
            None => evolve_mapped(base, None),
        }
    }
}

// ---------------------------------------------------------------------------
// Single-shot execution
// ---------------------------------------------------------------------------

/// What a boot starts from that has no network.
pub open spec fn plain_base<F>(
    kernel_path: Vec<u8>,
    kernel_exists: bool,
    app_args: Vec<String>,
    config: VmConfig,
    tools: Option<ToolRegistry<F>>,
    preopens: Vec<Preopen>,
) -> BootBase<F> {
    BootBase {
        kernel: kernel_path,
        kernel_exists,
        args: app_args,
        config,
        tools,
        preopens,
        network: None,
        listen_ports: None,
    }
}

/// What is done with a guest that was booted.
#[derive(Debug, Clone, Copy, PartialEq, Eq, Structural)]
pub enum GuestStep {
    /// Rewind it to the snapshot that was taken after the boot.
    Restore,
    /// Run its application to completion.
    CallRun,
}

/// A single-shot execution: a boot, and what follows it. It succeeds where all of it
/// does.
pub struct RunPlan<F> {
    /// What the boot is made of.
    pub boot: BootPlan<F>,
    /// What is done with the guest then, one after the other.
    pub steps: Vec<GuestStep>,
}

/// `r` is a single-shot execution with this boot: the guest is restored, and its
/// application run to completion once.
pub open spec fn runs_once<F>(
    base: BootBase<F>,
    initrd: Option<Seq<u8>>,
    r: Result<RunPlan<F>, BootError>,
) -> bool {
    match r {
        Ok(plan) => boots_inline(base, initrd, Ok(plan.boot)) && plan.steps@ == seq![
            GuestStep::Restore,
            GuestStep::CallRun,
        ],
        Err(e) => boots_inline(base, initrd, Err(e)),
    }
}

/// Boot with an in-memory initrd, then run the application once.
pub fn run_inline<F>(base: BootBase<F>, initrd: Option<&[u8]>) -> (r: Result<
    RunPlan<F>,
    BootError,
>)
    ensures
        runs_once(base, initdata::initrd_bytes(initrd), r),
{
    match evolve_inline(base, initrd) {
        Ok(boot) => {
            let mut steps: Vec<GuestStep> = Vec::new();
            steps.push(GuestStep::Restore);
            steps.push(GuestStep::CallRun);
            assert(steps@ =~= seq![GuestStep::Restore, GuestStep::CallRun]);
            Ok(RunPlan { boot, steps })
        },
        Err(e) => Err(e),
    }
}

/// Run a Unikraft kernel to completion (single-shot).
pub fn run_vm<F>(
    kernel_path: Vec<u8>,
    kernel_exists: bool,
    initrd: Option<&[u8]>,
    app_args: Vec<String>,
    config: VmConfig,
) -> (r: Result<RunPlan<F>, BootError>)
    ensures
        exists|none: Vec<Preopen>|
            none@.len() == 0 && #[trigger] runs_once(
                plain_base(kernel_path, kernel_exists, app_args, config, None, none),
                initdata::initrd_bytes(initrd),
                r,
            ),
{
    let preopens: Vec<Preopen> = Vec::new();
    assert(preopens@.len() == 0);
    let base = BootBase {
        kernel: kernel_path,
        kernel_exists,
        args: app_args,
        config,
        tools: None,
        preopens,
        network: None,
        listen_ports: None,
    };
    let r = run_inline(base, initrd);
    assert(runs_once(
        plain_base(kernel_path, kernel_exists, app_args, config, None, base.preopens),
        initdata::initrd_bytes(initrd),
        r,
    ));
    r
}

/// Run a Unikraft kernel with tool dispatch support.
pub fn run_vm_with_tools<F>(
    kernel_path: Vec<u8>,
    kernel_exists: bool,
    initrd: Option<&[u8]>,
    app_args: Vec<String>,
    config: VmConfig,
    tools: ToolRegistry<F>,
) -> (r: Result<RunPlan<F>, BootError>)
    ensures
        exists|none: Vec<Preopen>|
            none@.len() == 0 && #[trigger] runs_once(
                plain_base(kernel_path, kernel_exists, app_args, config, Some(tools), none),
                initdata::initrd_bytes(initrd),
                r,
            ),
{
    let preopens: Vec<Preopen> = Vec::new();
    assert(preopens@.len() == 0);
    let base = BootBase {
        kernel: kernel_path,
        kernel_exists,
        args: app_args,
        config,
        tools: Some(tools),
        preopens,
        network: None,
        listen_ports: None,
    };
    let r = run_inline(base, initrd);
    assert(runs_once(
        plain_base(kernel_path, kernel_exists, app_args, config, Some(tools), base.preopens),
        initdata::initrd_bytes(initrd),
        r,
    ));
    r
}

/// Run a Unikraft kernel with preopened host directories.
pub fn run_vm_with_preopens<F>(
    kernel_path: Vec<u8>,
    kernel_exists: bool,
    initrd: Option<&[u8]>,
    app_args: Vec<String>,
    config: VmConfig,
    preopens: Vec<Preopen>,
) -> (r: Result<RunPlan<F>, BootError>)
    ensures
        runs_once(
            plain_base(kernel_path, kernel_exists, app_args, config, None, preopens),
            initdata::initrd_bytes(initrd),
            r,
        ),
{
    let base = BootBase {
        kernel: kernel_path,
        kernel_exists,
        args: app_args,
        config,
        tools: None,
        preopens,
        network: None,
        listen_ports: None,
    };
    run_inline(base, initrd)
}

/// Output captured from a VM execution.
#[derive(Debug, PartialEq, Eq)]
pub struct VmOutput {
    pub output: String,
    pub setup_time: Duration,
    pub evolve_time: Duration,
}

/// What a captured run gives: the console output, or, where the call failed, an
/// error that holds it.
pub fn captured_output(
    call_result: Result<(), String>,
    captured: &[u8],
    setup_time: Duration,
    evolve_time: Duration,
) -> (r: Result<VmOutput, String>)
    ensures
        match (call_result, r) {
            (Ok(_), Ok(out)) => out.output@ == path::lossy_form(captured@) && out.setup_time
                == setup_time && out.evolve_time == evolve_time,
            (Err(e), Err(m)) => m@ == "VM call failed: "@ + e@
                + "\n--- captured output ---\n"@ + path::lossy_form(captured@),
            _ => false,
        },
{
    let output = lossy_text(captured);
    match call_result {
        Ok(_) => Ok(VmOutput { output, setup_time, evolve_time }),
        Err(e) => {
            let mut out = owned("VM call failed: ");
            out.append(e.as_str());
            out.append("\n--- captured output ---\n");
            out.append(output.as_str());
            Err(out)
        },
    }
}

// ---------------------------------------------------------------------------
// A sandbox that runs
// ---------------------------------------------------------------------------

/// What is kept of a sandbox that runs: its current snapshot `S`, the file that is
/// mapped as its initrd, and the exit code that the guest reported.
#[derive(Debug)]
pub struct Sandbox<S> {
    pub snapshot: Option<S>,
    pub mapped_file: Option<Vec<u8>>,
    pub map_base: u64,
    pub exit_code: i32,
}

/// What a restore has to do.
#[derive(Debug)]
pub struct RestorePlan<'a, S> {
    /// Rewind to this snapshot, if there is one.
    pub rewind_to: Option<&'a S>,
    /// Then map this file there, since a rewind unmaps it.
    pub remap: Option<(&'a [u8], u64)>,
}

impl<S> Sandbox<S> {
    /// `plan` restores this sandbox: it rewinds to the current snapshot, and maps
    /// the initrd file anew.
    pub open spec fn restored_by(self, plan: RestorePlan<'_, S>) -> bool {
        &&& match plan.rewind_to {
            Some(s) => self.snapshot == Some(*s),
            None => self.snapshot is None,
        }
        &&& match plan.remap {
            Some((file, base)) => base == self.map_base && (self.mapped_file matches Some(f)
                && file@ == f@),
            None => self.mapped_file is None,
        }
    }

    /// This sandbox after a snapshot was taken, or failed to be.
    pub open spec fn after_snapshot(self, taken: Result<S, String>) -> Self {
        match taken {
            Ok(s) => Sandbox { snapshot: Some(s), ..self },
            Err(_) => self,
        }
    }

    /// Start building a sandbox.
    pub fn builder<F>(kernel: Vec<u8>) -> (r: SandboxBuilder<F>)
        ensures
            r.kernel == kernel,
            r.initrd is None,
            r.args@.len() == 0,
            r.heap_size is None,
            r.stack_size is None,
            r.preopens@.len() == 0,
            r.network is None,
            r.listen_ports is None,
            forall|n: Seq<char>| #[trigger] r.tools.tool(n) is None,
            !r.has_tools,
    {
        SandboxBuilder {
            kernel,
            initrd: None,
            args: Vec::new(),
            heap_size: None,
            stack_size: None,
            preopens: Vec::new(),
            network: None,
            listen_ports: None,
            tools: ToolRegistry::new(),
            has_tools: false,
        }
    }

    /// A sandbox that was booted by a plan, with the snapshot that was taken after
    /// that, if it could be.
    pub fn booted(mapped_file: Option<Vec<u8>>, map_base: u64, snapshot: Option<S>) -> (r: Self)
        ensures
            r == (Sandbox { snapshot, mapped_file, map_base, exit_code: 0 }),
    {
        Sandbox { snapshot, mapped_file, map_base, exit_code: 0 }
    }

    /// A sandbox that was made from a snapshot, bypassing the boot.
    pub fn from_snapshot(snapshot: S, initrd: Option<Vec<u8>>) -> (r: Self)
        ensures
            r == (Sandbox {
                snapshot: Some(snapshot),
                mapped_file: initrd,
                map_base: INITRD_MAP_BASE,
                exit_code: 0,
            }),
    {
        Sandbox {
            snapshot: Some(snapshot),
            mapped_file: initrd,
            map_base: INITRD_MAP_BASE,
            exit_code: 0,
        }
    }

    /// Restore the sandbox to its current snapshot.
    pub fn restore(&self) -> (r: RestorePlan<'_, S>)
        ensures
            self.restored_by(r),
    {
        let rewind_to = match &self.snapshot {
            Some(s) => Some(s),
            None => None,
        };
        let remap = match &self.mapped_file {
            Some(f) => Some((f.as_slice(), self.map_base)),
            None => None,
        };
        RestorePlan { rewind_to, remap }
    }

    /// Keep a new snapshot, if taking it did not fail. Later restores rewind to it.
    pub fn snapshot_now(&mut self, taken: Result<S, String>) -> (r: Result<(), String>)
        ensures
            *final(self) == old(self).after_snapshot(taken),
            match taken {
                Ok(_) => r is Ok,
                Err(m) => r == Err::<(), String>(m),
            },
    {
        match taken {
            Ok(s) => {
                self.snapshot = Some(s);
                Ok(())
            },
            Err(m) => Err(m),
        }
    }

    /// The snapshot to persist.
    pub fn save_snapshot(&self) -> (r: Result<&S, String>)
        ensures
            match r {
                Ok(s) => self.snapshot == Some(*s),
                Err(m) => self.snapshot is None && m@
                    == "no snapshot present; build() or snapshot_now() first"@,
            },
    {
        match &self.snapshot {
            Some(s) => Ok(s),
            None => Err(owned("no snapshot present; build() or snapshot_now() first")),
        }
    }

    /// The guest reports an exit code.
    pub fn report_exit_code(&mut self, code: i32)
        ensures
            *final(self) == (Sandbox { exit_code: code, ..*old(self) }),
    {
        self.exit_code = code;
    }

    /// The exit code that the guest reported last; 0 if it never did.
    pub fn last_exit_code(&self) -> (r: i32)
        ensures
            r == self.exit_code,
    {
        self.exit_code
    }

    /// Reset the exit code to 0, so that an earlier one does not leak.
    pub fn reset_exit_code(&mut self)
        ensures
            *final(self) == (Sandbox { exit_code: 0, ..*old(self) }),
    {
        self.exit_code = 0;
    }
}

// ---------------------------------------------------------------------------
// Laws
// ---------------------------------------------------------------------------

/// Once a snapshot was taken, restores rewind to it and no longer to the one
/// before; the initrd file is mapped as before.
pub proof fn restores_rewind_to_the_newest_snapshot<S>(
    sandbox: Sandbox<S>,
    taken: S,
    before: RestorePlan<'_, S>,
    after: RestorePlan<'_, S>,
)
    requires
        sandbox.restored_by(before),
        sandbox.after_snapshot(Ok(taken)).restored_by(after),
    ensures
        after.rewind_to matches Some(s) && *s == taken,
        match (before.remap, after.remap) {
            (Some((f, b)), Some((g, c))) => f@ == g@ && b == c,
            (None, None) => true,
            _ => false,
        },
{
}

/// A snapshot that could not be taken changes nothing: restores rewind to where
/// they did before.
pub proof fn a_failed_snapshot_changes_nothing<S>(
    sandbox: Sandbox<S>,
    cause: String,
    plan: RestorePlan<'_, S>,
)
    ensures
        sandbox.after_snapshot(Err(cause)).restored_by(plan) == sandbox.restored_by(plan),
{
}

/// A boot without a network policy gives the guest no networking tool, whatever
/// the caller's own tools are called, as long as they bear other names.
pub proof fn a_plan_without_a_policy_has_no_networking<F>(
    base: BootBase<F>,
    plan: BootPlan<F>,
    tool: crate::net_tools::NetTool,
)
    requires
        plan_for(base, plan),
        base.network is None,
        registry::user_tool(base.tools, tool.called()) is None,
    ensures
        plan.tools.tool(tool.called()) is None,
{
    registry::no_networking_without_a_policy(base.tools, base.preopens@.len() > 0, tool);
}

/// A boot gets what it was to start from: the kernel, the heap, the mounts, the policy
/// and the ports, with the tools that go with them.
pub proof fn a_plan_keeps_what_it_was_given<F>(base: BootBase<F>, plan: BootPlan<F>, n: Seq<char>)
    requires
        plan_for(base, plan),
    ensures
        plan.kernel@ == path::lossy_form(base.kernel@),
        plan.sizes.heap_size == base.config.heap_size,
        plan.sizes.scratch_size == crate::memory::scratch_size(base.config.heap_size as int),
        plan.preopens == base.preopens,
        plan.network == base.network,
        plan.listen_ports == base.listen_ports,
        plan.tools.tool(n) == registry::sandbox_tool(
            base.tools,
            base.preopens@.len() != 0,
            !(base.network is None),
            n,
        ),
{
}

/// A boot with an initrd in memory is refused where there is no kernel, and for no
/// other reason; it maps no file.
pub proof fn an_inline_boot_needs_a_kernel<F>(
    base: BootBase<F>,
    initrd: Option<Seq<u8>>,
    r: Result<BootPlan<F>, BootError>,
)
    requires
        boots_inline(base, initrd, r),
    ensures
        r is Ok <==> base.kernel_exists,
        r matches Ok(plan) ==> plan_for(base, plan) && plan.mapped_file is None && plan.map_base
            == 0,
        r matches Err(e) ==> (e matches BootError::KernelNotFound(p) && p@ == base.kernel@),
{
}

/// A boot with an initrd file is refused where there is no kernel, no such file, or no
/// size of it, and for no other reason; the file is mapped at 3 GiB.
pub proof fn a_mapped_boot_needs_kernel_and_file<F>(
    base: BootBase<F>,
    initrd: Option<(Vec<u8>, FileProbe)>,
    r: Result<BootPlan<F>, BootError>,
)
    requires
        boots_mapped(base, initrd, r),
    ensures
        r is Ok <==> base.kernel_exists && (initrd matches Some((_, probe)) ==> probe is Size),
        r matches Ok(plan) ==> {
            &&& plan_for(base, plan)
            &&& plan.map_base == 3 * 1024 * 1024 * 1024
            &&& match initrd {
                Some((file, _)) => plan.mapped_file == Some(file),
                None => plan.mapped_file is None,
            }
        },
        !base.kernel_exists ==> (r matches Err(BootError::KernelNotFound(p)) && p@ == base.kernel@),
        base.kernel_exists ==> (initrd matches Some((file, FileProbe::Missing)) ==> r == Err::<
            BootPlan<F>,
            BootError,
        >(BootError::InitrdNotFound(file))),
        base.kernel_exists ==> (initrd matches Some((_, FileProbe::Unreadable(cause))) ==> r == Err::<
            BootPlan<F>,
            BootError,
        >(BootError::Host(cause))),
{
}

/// The guest of a boot with an initrd in memory finds its arguments, its mounts and its
/// initrd in the data that it is handed. Without arguments and mounts it is handed the
/// initrd alone.
pub proof fn an_inline_boot_hands_everything_over<F>(
    base: BootBase<F>,
    initrd: Option<Seq<u8>>,
    plan: BootPlan<F>,
) -> (found: (u64, int))
    requires
        boots_inline(base, initrd, Ok(plan)),
        initdata::lengths_fit(
            vstd::utf8::encode_utf8(initdata::cmdline_text(base.args@)),
            initdata::guest_paths(base.preopens@),
        ),
    ensures
        initdata::cmdline_text(base.args@).len() == 0 && base.preopens@.len() == 0 ==> init_bytes(
            plan.init_data,
        ) == initrd,
        initdata::cmdline_text(base.args@).len() > 0 || base.preopens@.len() > 0 ==> {
            &&& plan.init_data matches Some(b) && initdata::read_header(b@) == Some(
                (
                    vstd::utf8::encode_utf8(initdata::cmdline_text(base.args@)),
                    initdata::guest_paths(base.preopens@),
                    Some(found.0),
                ),
            ) && found.1 % 4096 == 0 && b@.skip(found.1) == match initrd {
                Some(d) => d,
                None => Seq::empty(),
            }
        },
{
    let wall_ns = choose|wall_ns: u64|
        init_bytes(plan.init_data) == #[trigger] inline_data(
            initrd,
            base.args@,
            base.preopens@,
            wall_ns,
        );
    let blocks = initdata::blocks_for(base.args@, base.preopens@, wall_ns);
    let data = match initrd {
        Some(d) => d,
        None => Seq::empty(),
    };
    assert(initdata::prefixed_initrd(blocks, initrd) =~= initdata::prefixed_initrd(
        blocks,
        Some(data),
    ));
    initdata::a_prefixed_initrd_gives_back_everything(
        vstd::utf8::encode_utf8(initdata::cmdline_text(base.args@)),
        initdata::guest_paths(base.preopens@),
        wall_ns,
        data,
    );
    (wall_ns, initdata::whole_pages(blocks.len()))
}

/// The guest of a boot with a mapped initrd finds its arguments, its mounts and the size
/// of the file in the data that it is handed. It is handed none where there is nothing
/// to say.
pub proof fn a_mapped_boot_hands_everything_over<F>(
    base: BootBase<F>,
    initrd: Option<(Vec<u8>, FileProbe)>,
    plan: BootPlan<F>,
    size: u64,
) -> (wall_ns: u64)
    requires
        boots_mapped(base, initrd, Ok(plan)),
        match initrd {
            Some((_, probe)) => probe == FileProbe::Size(size),
            None => size == 0,
        },
        initdata::lengths_fit(
            vstd::utf8::encode_utf8(initdata::cmdline_text(base.args@)),
            initdata::guest_paths(base.preopens@),
        ),
    ensures
        plan.init_data is None <==> initdata::cmdline_text(base.args@).len() == 0
            && base.preopens@.len() == 0 && size == 0,
        plan.init_data matches Some(b) ==> {
            &&& initdata::read_header(b@) == Some(
                (
                    vstd::utf8::encode_utf8(initdata::cmdline_text(base.args@)),
                    initdata::guest_paths(base.preopens@),
                    Some(wall_ns),
                ),
            )
            &&& b@.len() % 4096 == 0
            &&& b@.skip(b@.len() - 8) == vstd::bytes::spec_u64_to_le_bytes(size)
        },
{
    let wall_ns = choose|wall_ns: u64|
        init_bytes(plan.init_data) == #[trigger] mapped_data(
            base.args@,
            probed_size(initrd)->0,
            base.preopens@,
            wall_ns,
        );
    let blocks = initdata::blocks_for(base.args@, base.preopens@, wall_ns);
    initdata::initdata_gives_back_everything(
        vstd::utf8::encode_utf8(initdata::cmdline_text(base.args@)),
        initdata::guest_paths(base.preopens@),
        wall_ns,
        size,
    );
    let _ = initdata::the_header_fills_whole_pages(blocks, size, Seq::empty());
    wall_ns
}

/// A builder boots what it was told to, with 512 MiB of heap and 8 MiB of stack where
/// it was not told.
pub proof fn a_builder_boots_what_it_was_told<F>(builder: SandboxBuilder<F>, kernel_exists: bool)
    ensures
        ({
            let base = builder.base(kernel_exists);
            &&& base.kernel == builder.kernel
            &&& base.kernel_exists == kernel_exists
            &&& base.args == builder.args
            &&& base.preopens == builder.preopens
            &&& base.network == builder.network
            &&& base.listen_ports == builder.listen_ports
            &&& builder.has_tools ==> base.tools == Some(builder.tools)
            &&& !builder.has_tools ==> base.tools is None
            &&& match builder.heap_size {
                Some(n) => base.config.heap_size == n,
                None => base.config.heap_size == 512 * 1024 * 1024,
            }
            &&& match builder.stack_size {
                Some(n) => base.config.stack_size == n,
                None => base.config.stack_size == 8 * 1024 * 1024,
            }
        }),
{
}

/// A single-shot execution restores the guest and then runs its application, once, and
/// is refused where there is no kernel.
pub proof fn a_single_shot_restores_and_runs_once<F>(
    base: BootBase<F>,
    initrd: Option<Seq<u8>>,
    r: Result<RunPlan<F>, BootError>,
)
    requires
        runs_once(base, initrd, r),
    ensures
        r is Ok <==> base.kernel_exists,
        r matches Ok(plan) ==> {
            &&& boots_inline(base, initrd, Ok(plan.boot))
            &&& plan.steps@.len() == 2
            &&& plan.steps@[0] is Restore
            &&& plan.steps@[1] is CallRun
        },
        r matches Err(e) ==> (e matches BootError::KernelNotFound(p) && p@ == base.kernel@),
{
}

/// A single-shot execution has no network, and else what it was given.
pub proof fn a_single_shot_has_no_network<F>(
    kernel_path: Vec<u8>,
    kernel_exists: bool,
    app_args: Vec<String>,
    config: VmConfig,
    tools: Option<ToolRegistry<F>>,
    preopens: Vec<Preopen>,
)
    ensures
        ({
            let base = plain_base(kernel_path, kernel_exists, app_args, config, tools, preopens);
            &&& base.kernel == kernel_path
            &&& base.kernel_exists == kernel_exists
            &&& base.args == app_args
            &&& base.config == config
            &&& base.tools == tools
            &&& base.preopens == preopens
            &&& base.network is None
            &&& base.listen_ports is None
        }),
{
}

/// A restore rewinds to the snapshot that the sandbox keeps, and maps its initrd file
/// again, where it was.
pub proof fn a_restore_brings_everything_back<S>(sandbox: Sandbox<S>, plan: RestorePlan<'_, S>)
    requires
        sandbox.restored_by(plan),
    ensures
        match sandbox.snapshot {
            Some(s) => plan.rewind_to matches Some(r) && *r == s,
            None => plan.rewind_to is None,
        },
        match sandbox.mapped_file {
            Some(f) => plan.remap matches Some((g, base)) && g@ == f@ && base == sandbox.map_base,
            None => plan.remap is None,
        },
{
}

/// A snapshot changes nothing but what restores rewind to.
pub proof fn a_snapshot_changes_nothing_else<S>(sandbox: Sandbox<S>, taken: Result<S, String>)
    ensures
        ({
            let after = sandbox.after_snapshot(taken);
            &&& after.mapped_file == sandbox.mapped_file
            &&& after.map_base == sandbox.map_base
            &&& after.exit_code == sandbox.exit_code
            &&& taken matches Ok(s) ==> after.snapshot == Some(s)
            &&& taken is Err ==> after.snapshot == sandbox.snapshot
        }),
{
}

/// A boot that is refused is told why, with the path that is missing.
pub proof fn a_refused_boot_is_told_why(file: Vec<u8>, cause: String)
    ensures
        BootError::KernelNotFound(file).wording() == "Kernel not found: "@ + path::shown_form(file@),
        BootError::InitrdNotFound(file).wording() == "Initrd not found: "@ + path::shown_form(file@),
        BootError::Host(cause).wording() == cause@,
{
}

} // verus!
