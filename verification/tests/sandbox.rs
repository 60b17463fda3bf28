use hyperlight_unikraft::initdata::{CMDLINE_MAGIC, MOUNT_MAGIC};
use hyperlight_unikraft::memory::VmConfig;
use hyperlight_unikraft::mount::Preopen;
use hyperlight_unikraft::net_policy::{ListenPorts, NetworkPolicy};
use hyperlight_unikraft::path::HostPath;
use hyperlight_unikraft::registry::{Dispatch, ToolRegistry};
use hyperlight_unikraft::sandbox::{
    captured_output, run_vm, run_vm_with_preopens, run_vm_with_tools, FileProbe, GuestStep, Sandbox,
    SandboxBuilder, INITRD_MAP_BASE,
};
use serde_json::Value;
use std::time::Duration;

type Handler = fn(Value) -> Result<Value, String>;

fn builder() -> SandboxBuilder<Handler> {
    Sandbox::<()>::builder::<Handler>(b"./kernel".to_vec())
}

fn opened(guest: &str) -> Preopen {
    Preopen::new("/w", guest, Ok(HostPath::parse(b"/w").unwrap())).unwrap()
}

fn ok(args: Value) -> Result<Value, String> {
    Ok(args)
}

#[test]
fn a_mapped_boot() {
    let plan = builder()
        .initrd_file(b"app.cpio".to_vec())
        .args(vec!["a".to_string()])
        .arg("b".to_string())
        .heap_size(16 << 20)
        .preopen(opened("/data"))
        .network(NetworkPolicy::AllowAll)
        .listen_ports(ListenPorts::from_ports(&[80]))
        .tool("echo", ok)
        .build(true, FileProbe::Size(77))
        .ok()
        .unwrap();
    assert_eq!(plan.kernel, "./kernel");
    assert_eq!(plan.mapped_file.as_deref(), Some(&b"app.cpio"[..]));
    assert_eq!(plan.map_base, 0xC000_0000);
    assert_eq!(plan.sizes.heap_size, 16 << 20);
    let data = plan.init_data.unwrap();
    assert_eq!(&data[..8], &CMDLINE_MAGIC);
    assert_eq!(&data[12..16], b"a b\0");
    assert_eq!(&data[16..24], &MOUNT_MAGIC);
    assert_eq!(&data[4088..], &77u64.to_le_bytes());
    for name in ["echo", "fs_read", "net_bind", "__hl_sleep"] {
        assert!(plan.tools.get(name).is_some(), "{name}");
    }
    assert!(plan.listen_ports.is_some());
}

#[test]
fn an_inline_boot() {
    let plan = builder()
        .initrd_bytes(b"cpio".to_vec())
        .stack_size(1)
        .build(true, FileProbe::Missing)
        .ok()
        .unwrap();
    assert_eq!(plan.init_data.as_deref(), Some(&b"cpio"[..]));
    assert_eq!((plan.mapped_file, plan.map_base), (None, 0));
    assert_eq!(plan.sizes.heap_size, 512 << 20);
    assert!(plan.tools.get("net_bind").is_none());
    assert!(plan.tools.get("fs_read").is_none());
    assert!(plan.tools.get("__hl_exit").is_some());
}

#[test]
fn a_boot_without_an_initrd() {
    let plan = builder().build(true, FileProbe::Missing).ok().unwrap();
    assert_eq!(plan.init_data, None);
    assert_eq!((plan.mapped_file, plan.map_base), (None, INITRD_MAP_BASE));
}

#[test]
fn boots_that_fail() {
    let err = |r: Result<_, hyperlight_unikraft::sandbox::BootError>| -> String {
        match r {
            Ok::<hyperlight_unikraft::sandbox::BootPlan<Handler>, _>(_) => panic!(),
            Err(e) => e.message(),
        }
    };
    let file = || builder().initrd_file(b"x.cpio".to_vec());
    assert_eq!(
        err(file().build(false, FileProbe::Missing)),
        "Kernel not found: \"./kernel\""
    );
    assert_eq!(
        err(file().build(true, FileProbe::Missing)),
        "Initrd not found: \"x.cpio\""
    );
    assert_eq!(
        err(file().build(true, FileProbe::Unreadable("denied".to_string()))),
        "denied"
    );
    let run = run_vm::<Handler>(b"k".to_vec(), false, None, vec![], VmConfig::default());
    assert_eq!(run.err().unwrap().message(), "Kernel not found: \"k\"");
}

#[test]
fn single_shots() {
    let plan = run_vm::<Handler>(b"k".to_vec(), true, Some(b"i"), vec![], VmConfig::default())
        .ok()
        .unwrap();
    assert_eq!(plan.boot.init_data.as_deref(), Some(&b"i"[..]));
    assert_eq!(plan.steps, [GuestStep::Restore, GuestStep::CallRun]);
    let mut tools: ToolRegistry<Handler> = ToolRegistry::new();
    tools.register("echo", ok);
    let plan = run_vm_with_tools(b"k".to_vec(), true, None, vec![], VmConfig::default(), tools)
        .ok()
        .unwrap();
    assert_eq!(plan.boot.init_data, None);
    assert!(matches!(
        plan.boot.tools.dispatch(br#"{"name":"echo"}"#),
        Dispatch::Reply(_)
    ));
    let plan = run_vm_with_preopens::<Handler>(
        b"k".to_vec(),
        true,
        None,
        vec![],
        VmConfig::default(),
        vec![opened("/data")],
    )
    .ok()
    .unwrap();
    assert_eq!(plan.steps, [GuestStep::Restore, GuestStep::CallRun]);
    assert!(plan.boot.tools.get("fs_list").is_some());
    assert_eq!(plan.boot.init_data.unwrap().len(), 4096);
}

#[test]
fn snapshots_and_exit_codes() {
    let mut sandbox = Sandbox::booted(Some(b"i".to_vec()), INITRD_MAP_BASE, Some(1));
    let plan = sandbox.restore();
    assert_eq!(plan.rewind_to, Some(&1));
    assert_eq!(plan.remap, Some((&b"i"[..], INITRD_MAP_BASE)));
    assert_eq!(sandbox.snapshot_now(Err("no".to_string())), Err("no".to_string()));
    assert_eq!(sandbox.restore().rewind_to, Some(&1));
    assert!(sandbox.snapshot_now(Ok(2)).is_ok());
    assert_eq!(sandbox.restore().rewind_to, Some(&2));
    assert_eq!(sandbox.save_snapshot(), Ok(&2));
    assert_eq!(sandbox.last_exit_code(), 0);
    sandbox.report_exit_code(5);
    assert_eq!(sandbox.last_exit_code(), 5);
    sandbox.reset_exit_code();
    assert_eq!(sandbox.last_exit_code(), 0);
}

#[test]
fn a_sandbox_without_a_snapshot() {
    let sandbox: Sandbox<u8> = Sandbox::booted(None, 0, None);
    let plan = sandbox.restore();
    assert!(plan.rewind_to.is_none() && plan.remap.is_none());
    assert_eq!(
        sandbox.save_snapshot().unwrap_err(),
        "no snapshot present; build() or snapshot_now() first"
    );
    let loaded = Sandbox::from_snapshot(9, None);
    assert_eq!(loaded.restore().rewind_to, Some(&9));
    assert_eq!(loaded.map_base, INITRD_MAP_BASE);
}

#[test]
fn captured_runs() {
    let (a, b) = (Duration::from_millis(1), Duration::from_millis(2));
    let out = captured_output(Ok(()), b"hi\xff", a, b).unwrap();
    assert_eq!(out.output, "hi\u{fffd}");
    assert_eq!((out.setup_time, out.evolve_time), (a, b));
    assert_eq!(
        captured_output(Err("halted".to_string()), b"log", a, b).unwrap_err(),
        "VM call failed: halted\n--- captured output ---\nlog"
    );
}
