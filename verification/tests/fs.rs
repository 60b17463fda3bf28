use hyperlight_unikraft::fs_router::FsRouter;
use hyperlight_unikraft::fs_sandbox::{Answer, FsSandbox, Link, Query, RootProbe, Step};
use hyperlight_unikraft::fs_tools::{
    finish, go_on, DirEntry, FsAction, FsEvent, FsOp, FsStep, FsTool,
};
use hyperlight_unikraft::mount::Preopen;
use hyperlight_unikraft::path::HostPath;
use hyperlight_unikraft::registry::{encode_reply, Builtin, Dispatch, ToolRegistry};
use serde_json::Value;
use std::collections::BTreeMap;

type Handler = fn(Value) -> Result<Value, String>;

/// A file system in memory, as far as the tools ask for it.
enum Node {
    Dir,
    File(Vec<u8>),
    Link(String),
}

struct Disk {
    nodes: BTreeMap<String, Node>,
}

fn parent(path: &str) -> (String, String) {
    let at = path.rfind('/').unwrap();
    let dir = if at == 0 { "/" } else { &path[..at] };
    (dir.to_string(), path[at + 1..].to_string())
}

fn below(dir: &str, name: &str) -> String {
    if dir == "/" {
        format!("/{name}")
    } else {
        format!("{dir}/{name}")
    }
}

impl Disk {
    fn new(dirs: &[&str]) -> Disk {
        let mut disk = Disk {
            nodes: BTreeMap::new(),
        };
        for d in dirs {
            disk.dir(d);
        }
        disk
    }

    fn dir(&mut self, path: &str) {
        let mut at = String::new();
        for name in path.split('/').filter(|n| !n.is_empty()) {
            at = format!("{at}/{name}");
            self.nodes.entry(at.clone()).or_insert(Node::Dir);
        }
    }

    fn file(&mut self, path: &str, bytes: &[u8]) {
        self.nodes.insert(path.to_string(), Node::File(bytes.to_vec()));
    }

    fn link(&mut self, path: &str, target: &str) {
        self.nodes.insert(path.to_string(), Node::Link(target.to_string()));
    }

    fn canonical(&self, path: &str, hops: usize) -> Option<String> {
        if hops > 40 {
            return None;
        }
        let mut at = "/".to_string();
        for name in path.split('/').filter(|n| !n.is_empty()) {
            if name == "." {
                continue;
            }
            if name == ".." {
                at = parent(&at).0;
                continue;
            }
            let next = below(&at, name);
            at = match self.nodes.get(&next)? {
                Node::Link(t) => {
                    let target = if t.starts_with('/') { t.clone() } else { below(&at, t) };
                    self.canonical(&target, hops + 1)?
                }
                _ => next,
            };
        }
        Some(at)
    }

    fn node(&self, path: &str) -> Option<&Node> {
        self.nodes.get(&self.canonical(path, 0)?)
    }

    fn answer(&self, query: Query) -> Answer {
        match query {
            Query::Exists(p) => Answer::Exists(self.canonical(&text(&p), 0).is_some()),
            Query::Canonicalize(p) => Answer::Canonical(
                self.canonical(&text(&p), 0)
                    .map(|c| host(&c))
                    .ok_or_else(|| "gone".to_string()),
            ),
            Query::ReadLink(p) => {
                let (dir, name) = parent(&text(&p));
                let found = self
                    .canonical(&dir, 0)
                    .and_then(|d| self.nodes.get(&below(&d, &name)));
                Answer::Link(match found {
                    Some(Node::Link(t)) => Link::To(t.as_bytes().to_vec()),
                    _ => Link::Plain,
                })
            }
        }
    }

    fn perform(&mut self, op: &FsOp) -> FsEvent {
        let target = text(&op.target);
        let enoent = || FsEvent::Failed("No such file or directory (os error 2)".to_string());
        match op.action {
            FsAction::ReadText => match self.node(&target) {
                Some(Node::File(b)) => FsEvent::Text(String::from_utf8(b.clone()).unwrap()),
                _ => enoent(),
            },
            FsAction::Write { truncate, append, seek } => {
                let mut bytes = match self.nodes.get(&target) {
                    Some(Node::File(b)) if !truncate => b.clone(),
                    _ => Vec::new(),
                };
                let at = if append { bytes.len() } else { seek.unwrap_or(0) as usize };
                let data = op.call.bytes();
                if bytes.len() < at + data.len() {
                    bytes.resize(at + data.len(), 0);
                }
                bytes[at..at + data.len()].copy_from_slice(data);
                self.nodes.insert(target, Node::File(bytes));
                FsEvent::Done
            }
            FsAction::ReadDir => {
                if !matches!(self.node(&target), Some(Node::Dir)) {
                    return enoent();
                }
                let mut list = Vec::new();
                for (path, node) in &self.nodes {
                    let (dir, name) = parent(path);
                    if dir == target {
                        list.push(DirEntry {
                            name: name.into_bytes(),
                            is_dir: matches!(node, Node::Dir),
                            is_file: matches!(node, Node::File(_)),
                            is_symlink: matches!(node, Node::Link(_)),
                        });
                    }
                }
                FsEvent::Listed(list)
            }
            FsAction::Metadata => match self.node(&target) {
                Some(Node::File(b)) => FsEvent::Meta {
                    size: b.len() as u64,
                    is_dir: false,
                    is_file: true,
                },
                Some(Node::Dir) => FsEvent::Meta {
                    size: 4096,
                    is_dir: true,
                    is_file: false,
                },
                _ => enoent(),
            },
            FsAction::ReadAt { seek, want } => match self.node(&target) {
                Some(Node::File(b)) => {
                    let from = (seek.unwrap_or(0) as usize).min(b.len());
                    let to = b.len().min(from + want as usize);
                    FsEvent::Bytes(b[from..to].to_vec())
                }
                _ => enoent(),
            },
            FsAction::SetLen { length } => match self.nodes.get_mut(&target) {
                Some(Node::File(b)) => {
                    b.resize(length as usize, 0);
                    FsEvent::Done
                }
                _ => enoent(),
            },
            FsAction::CreateDir { all } => {
                if self.nodes.contains_key(&target) {
                    return FsEvent::Failed("File exists (os error 17)".to_string());
                }
                if !all && !matches!(self.node(&parent(&target).0), Some(Node::Dir)) {
                    return enoent();
                }
                self.dir(&target);
                FsEvent::Done
            }
            FsAction::RemoveDir | FsAction::RemoveFile => {
                let dir = matches!(self.nodes.get(&target), Some(Node::Dir));
                assert_eq!(dir, op.action == FsAction::RemoveDir);
                self.nodes.remove(&target);
                FsEvent::Done
            }
        }
    }
}

fn text(p: &HostPath) -> String {
    String::from_utf8(p.to_bytes()).unwrap()
}

fn host(text: &str) -> HostPath {
    HostPath::parse(text.as_bytes()).unwrap()
}

fn sandbox(root: &str) -> FsSandbox {
    FsSandbox::new(root.as_bytes(), RootProbe::Canonical(host(root), true)).unwrap()
}

fn resolve(disk: &Disk, fs: &FsSandbox, guest: &str) -> Result<String, String> {
    let mut step = fs.resolve(guest);
    loop {
        match step {
            Step::Done(p) => return Ok(text(&p)),
            Step::Failed(e) => return Err(e.message()),
            Step::Ask(r) => {
                let answer = disk.answer(r.query());
                step = r.answer(answer);
            }
        }
    }
}

fn router(mounts: &[(&str, &str)]) -> FsRouter {
    let preopens: Vec<Preopen> = mounts
        .iter()
        .map(|(h, g)| Preopen::new(h, g, Ok(host(h))).unwrap())
        .collect();
    let probes: Vec<RootProbe> = mounts
        .iter()
        .map(|(h, _)| RootProbe::Canonical(host(h), true))
        .collect();
    FsRouter::new(&preopens, &probes).unwrap()
}

fn call(disk: &mut Disk, router: &FsRouter, tool: FsTool, args: &Value) -> Result<Value, String> {
    let mut step = router.start(tool, args);
    loop {
        match step {
            FsStep::Reply(r) => return r,
            FsStep::Ask(call, resolution) => {
                let answer = disk.answer(resolution.query());
                step = go_on(call, resolution, answer);
            }
            FsStep::Act(op) => {
                let event = disk.perform(&op);
                step = finish(op, event);
            }
        }
    }
}

fn dispatch(disk: &mut Disk, router: &FsRouter, request: &[u8]) -> String {
    let mut registry: ToolRegistry<Handler> = ToolRegistry::new();
    registry.register_fs_tools();
    let bytes = match registry.dispatch(request) {
        Dispatch::Reply(b) => b,
        Dispatch::Pending(Builtin::Fs(tool), args) => {
            encode_reply(call(disk, router, tool, &args))
        }
        Dispatch::Pending(other, _) => panic!("{other:?}"),
    };
    String::from_utf8(bytes).unwrap()
}

/// A JSON text with its members in the order in which they are written.
fn canonical(text: &str) -> String {
    serde_json::from_str::<Value>(text).unwrap().to_string()
}

const ROOT: &str = "/tmp/root";
const OUT: &str = "/tmp/outside";

#[test]
fn resolve_rejects_parent_escape() {
    let disk = Disk::new(&[ROOT]);
    let err = resolve(&disk, &sandbox(ROOT), "../etc/passwd").unwrap_err();
    assert!(err.contains("escapes mount root"), "{err}");
    assert_eq!(err, "path escapes mount root: \"../etc/passwd\"");
}

#[test]
fn resolve_rejects_deep_parent_escape() {
    let disk = Disk::new(&[ROOT]);
    let err = resolve(&disk, &sandbox(ROOT), "a/b/../../../outside").unwrap_err();
    assert!(err.contains("escapes mount root"), "{err}");
}

#[test]
fn resolve_treats_absolute_paths_as_mount_relative() {
    // A leading '/' is stripped, so "/etc/passwd" becomes "etc/passwd" under
    // the mount — not the host's /etc/passwd.
    let mut disk = Disk::new(&["/tmp/root/etc"]);
    disk.file("/tmp/root/etc/passwd", b"fake");
    let fs = sandbox(ROOT);
    let resolved = resolve(&disk, &fs, "/etc/passwd").unwrap();
    assert_eq!(resolved, format!("{}/etc/passwd", text(fs.root())));
}

#[test]
fn resolve_rejects_symlink_escape() {
    let mut disk = Disk::new(&[ROOT, OUT]);
    disk.file("/tmp/outside/secret", b"nope");
    disk.link("/tmp/root/leak", "/tmp/outside/secret");
    let err = resolve(&disk, &sandbox(ROOT), "leak").unwrap_err();
    assert!(err.contains("escapes mount root"), "{err}");
    assert_eq!(err, "path escapes mount root (symlink): \"leak\"");
}

#[test]
fn resolve_rejects_symlink_escape_via_ancestor() {
    // A symlinked parent directory is just as effective: any child under it
    // resolves outside the root.
    let mut disk = Disk::new(&[ROOT, OUT]);
    disk.link("/tmp/root/shortcut", OUT);
    let err = resolve(&disk, &sandbox(ROOT), "shortcut/anything").unwrap_err();
    assert!(err.contains("escapes mount root"), "{err}");
}

#[test]
fn resolve_rejects_dangling_symlink_escape() {
    let mut disk = Disk::new(&[ROOT, OUT]);
    disk.link("/tmp/root/bad_link", "/tmp/outside/nonexistent");
    let err = resolve(&disk, &sandbox(ROOT), "bad_link").unwrap_err();
    assert!(
        err.contains("escapes mount root"),
        "expected escape error, got: {err}"
    );
    assert_eq!(err, "symlink target escapes mount root: \"bad_link\"");
}

#[test]
fn resolve_allows_valid_internal_symlink() {
    let mut disk = Disk::new(&[ROOT]);
    disk.file("/tmp/root/real_file.txt", b"hello");
    disk.link("/tmp/root/good_link", "/tmp/root/real_file.txt");
    let resolved = resolve(&disk, &sandbox(ROOT), "good_link").unwrap();
    assert!(
        resolved.starts_with(ROOT),
        "expected path under root, got: {resolved:?}"
    );
    assert_eq!(resolved, "/tmp/root/real_file.txt");
}

#[test]
fn resolve_allows_dangling_symlink_inside_root() {
    let mut disk = Disk::new(&[ROOT]);
    disk.link("/tmp/root/ok_link", "/tmp/root/future_file.txt");
    let resolved = resolve(&disk, &sandbox(ROOT), "ok_link").unwrap();
    assert!(
        resolved.starts_with(ROOT),
        "expected path under root, got: {resolved:?}"
    );
}

#[test]
fn resolve_rejects_symlink_chain_escape() {
    let mut disk = Disk::new(&[ROOT, OUT]);
    disk.link("/tmp/root/link_b", OUT);
    disk.link("/tmp/root/link_a", "/tmp/root/link_b");
    let err = resolve(&disk, &sandbox(ROOT), "link_a").unwrap_err();
    assert!(
        err.contains("escapes mount root"),
        "expected escape error, got: {err}"
    );
}

#[test]
fn resolve_rejects_chained_dangling_symlink_escape() {
    let mut disk = Disk::new(&[ROOT, OUT]);
    // link_b -> dangling path outside root
    disk.link("/tmp/root/link_b", "/tmp/outside/nonexistent");
    // link_a -> link_b (which is under root, but chains outside)
    disk.link("/tmp/root/link_a", "/tmp/root/link_b");
    let err = resolve(&disk, &sandbox(ROOT), "link_a").unwrap_err();
    assert!(
        err.contains("escapes mount root"),
        "expected escape error, got: {err}"
    );
}

#[test]
fn resolve_allows_paths_under_the_root() {
    let disk = Disk::new(&[ROOT]);
    let resolved = resolve(&disk, &sandbox(ROOT), "subdir/file.txt").unwrap();
    assert!(resolved.starts_with(ROOT), "{resolved:?}");
    assert_eq!(resolved, "/tmp/root/subdir/file.txt");
}

#[test]
fn resolve_follows_relative_links_and_stops_after_the_hop_limit() {
    let mut disk = Disk::new(&["/tmp/root/sub"]);
    disk.link("/tmp/root/sub/up", "../x/../y");
    assert_eq!(resolve(&disk, &sandbox(ROOT), "sub/up").unwrap(), "/tmp/root/sub/up");
    disk.link("/tmp/root/sub/far", "../../elsewhere");
    assert_eq!(
        resolve(&disk, &sandbox(ROOT), "sub/far").unwrap_err(),
        "symlink target escapes mount root: \"sub/far\""
    );
    // Two links that lead to each other.
    disk.link("/tmp/root/ping", "pong");
    disk.link("/tmp/root/pong", "ping");
    assert_eq!(resolve(&disk, &sandbox(ROOT), "ping").unwrap(), "/tmp/root/ping");
}

#[test]
fn resolve_rejects_dangling_links_through_other_links() {
    // a -> root/d/new, which does not exist, and d -> a directory outside.
    let mut disk = Disk::new(&[ROOT, OUT]);
    disk.link("/tmp/root/d", OUT);
    disk.link("/tmp/root/a", "/tmp/root/d/new");
    assert_eq!(
        resolve(&disk, &sandbox(ROOT), "a").unwrap_err(),
        "symlink target escapes mount root: \"a\""
    );
}

#[test]
fn resolve_goes_by_where_links_really_lead() {
    let mut disk = Disk::new(&["/tmp/root/a/b", "/tmp/root/c"]);
    disk.link("/tmp/root/c/to_b", "../a/b");
    // By its text this link points to /tmp/root/c/new; the host goes to /tmp/root/a/new.
    disk.link("/tmp/root/c/l", "to_b/../new");
    assert_eq!(resolve(&disk, &sandbox(ROOT), "c/l").unwrap(), "/tmp/root/c/l");
    // By its text this one points to /tmp/root/top/new; the host goes to /tmp/top/new.
    disk.link("/tmp/root/top", ".");
    disk.link("/tmp/root/a/b/l", "../../top/../top/new");
    let err = resolve(&disk, &sandbox(ROOT), "a/b/l").unwrap_err();
    assert!(err.contains("escapes mount root"), "{err}");
}

#[test]
fn resolve_rejects_names_behind_a_dangling_link_out() {
    let mut disk = Disk::new(&[ROOT, OUT]);
    disk.link("/tmp/root/bad_link", "/tmp/outside/nonexistent");
    let err = resolve(&disk, &sandbox(ROOT), "bad_link/x").unwrap_err();
    assert_eq!(err, "symlink target escapes mount root: \"bad_link/x\"");
    disk.link("/tmp/root/ok_link", "future");
    assert_eq!(
        resolve(&disk, &sandbox(ROOT), "ok_link/x/y").unwrap(),
        "/tmp/root/ok_link/x/y"
    );
}

#[test]
fn resolve_follows_as_many_links_as_the_host() {
    let chain = |n: usize, end: &str| {
        let mut disk = Disk::new(&[ROOT, OUT]);
        for i in 0..n - 1 {
            disk.link(&format!("/tmp/root/l{i}"), &format!("l{}", i + 1));
        }
        disk.link(&format!("/tmp/root/l{}", n - 1), end);
        resolve(&disk, &sandbox(ROOT), "l0/x")
    };
    assert_eq!(chain(40, "future").unwrap(), "/tmp/root/l0/x");
    assert!(chain(40, "/tmp/outside/new").unwrap_err().contains("escapes mount root"));
    // With one link more the host gives up, wherever the last one points.
    assert_eq!(chain(41, "/tmp/outside/new").unwrap(), "/tmp/root/l0/x");
}

#[test]
fn resolve_counts_only_the_links_of_a_chain() {
    // Each link of the chain goes through a link in the middle of its target.
    let chain = |n: usize, end: &str| {
        let mut disk = Disk::new(&[ROOT, OUT]);
        disk.link("/tmp/root/d", ".");
        for i in 0..n - 1 {
            disk.link(&format!("/tmp/root/l{i}"), &format!("/tmp/root/d/l{}", i + 1));
        }
        disk.link(&format!("/tmp/root/l{}", n - 1), end);
        resolve(&disk, &sandbox(ROOT), "l0")
    };
    for n in [20, 21, 30, 40] {
        assert_eq!(
            chain(n, "/tmp/outside/new").unwrap_err(),
            "symlink target escapes mount root: \"l0\"",
            "{n}"
        );
        assert_eq!(chain(n, "future").unwrap(), "/tmp/root/l0", "{n}");
    }
    assert_eq!(chain(41, "/tmp/outside/new").unwrap(), "/tmp/root/l0");
}

#[test]
fn resolve_goes_by_the_texts_of_a_chain() {
    // Opening l goes to /tmp/root/x. By the texts, the second link stands in
    // /tmp/root/d, and points to /tmp/x.
    let mut disk = Disk::new(&["/tmp/root/sub/deep"]);
    disk.link("/tmp/root/d", "sub/deep");
    disk.link("/tmp/root/sub/deep/m", "../../x");
    disk.link("/tmp/root/l", "d/m");
    assert_eq!(
        resolve(&disk, &sandbox(ROOT), "l").unwrap_err(),
        "symlink target escapes mount root: \"l\""
    );
    assert_eq!(resolve(&disk, &sandbox(ROOT), "sub/deep/m").unwrap(), "/tmp/root/sub/deep/m");
}

#[test]
fn resolve_takes_a_backslash_for_a_part_of_a_name() {
    let disk = Disk::new(&[ROOT]);
    assert_eq!(resolve(&disk, &sandbox(ROOT), "a\\b").unwrap(), "/tmp/root/a\\b");
}

#[test]
fn resolve_reports_the_host() {
    let fs = sandbox(ROOT);
    let Step::Ask(r) = fs.resolve("x") else { panic!() };
    let Step::Ask(r) = r.answer(Answer::Exists(true)) else { panic!() };
    let Step::Failed(e) = r.answer(Answer::Canonical(Err("no".to_string()))) else {
        panic!()
    };
    assert_eq!(e.message(), "canonicalize \"/tmp/root/x\": no");
    let mut step = fs.resolve("x");
    while let Step::Ask(r) = step {
        step = r.answer(Answer::Exists(false));
    }
    let Step::Failed(e) = step else { panic!() };
    assert_eq!(e.message(), "path has no existing ancestor: \"/tmp/root/x\"");
}

#[test]
fn sandbox_roots_must_be_directories() {
    let err = FsSandbox::new(b"./g\xffone", RootProbe::Unresolved("no".to_string())).unwrap_err();
    assert_eq!(err.message(), "canonicalize mount root \"./g\\xFFone\": no");
    let err = FsSandbox::new(b"f", RootProbe::Canonical(host("/tmp/f"), false)).unwrap_err();
    assert_eq!(err.message(), "mount root is not a directory: \"/tmp/f\"");
}

#[test]
fn fs_read_over_dispatch_rejects_escape() {
    // End-to-end through the tool registry: the error surface the guest
    // actually sees.
    let mut disk = Disk::new(&[ROOT]);
    let router = router(&[(ROOT, "/host")]);
    let req = br#"{"name":"fs_read","args":{"path":"/host/../outside.txt"}}"#;
    let s = dispatch(&mut disk, &router, req);
    assert!(s.contains("\"error\""), "{s}");
    assert!(s.contains("escapes mount root"), "{s}");
}

#[test]
fn fs_write_then_read_roundtrip() {
    let mut disk = Disk::new(&[ROOT]);
    let router = router(&[(ROOT, "/host")]);
    let w = br#"{"name":"fs_write","args":{"path":"/host/hello.txt","text":"hi"}}"#;
    let s = dispatch(&mut disk, &router, w);
    assert!(s.contains("\"bytes_written\":2"), "{s}");
    let r = br#"{"name":"fs_read","args":{"path":"/host/hello.txt"}}"#;
    let s = dispatch(&mut disk, &router, r);
    assert!(s.contains("\"text\":\"hi\""), "{s}");
}

#[test]
fn test_fs_read_bytes_capped() {
    let mut disk = Disk::new(&[ROOT]);
    disk.file("/tmp/root/small.bin", b"hello");
    let router = router(&[(ROOT, "/host")]);
    let req = br#"{"name":"fs_read_bytes","args":{"path":"/host/small.bin","len":1099511627776}}"#;
    let s = dispatch(&mut disk, &router, req);
    assert!(!s.contains("\"error\""), "should succeed: {s}");
    assert!(s.contains("\"bytes_read\":5"), "{s}");
    assert_eq!(s, canonical(r#"{"result":{"data":"aGVsbG8=","eof":true,"bytes_read":5}}"#));
}

#[test]
fn fs_bytes_and_offsets() {
    let mut disk = Disk::new(&[ROOT]);
    let router = router(&[(ROOT, "/host")]);
    let mut go = |req: &str| dispatch(&mut disk, &router, req.as_bytes());
    // "abcdef"
    assert_eq!(
        go(r#"{"name":"fs_write_bytes","args":{"path":"/host/f","data":"YWJjZGVm"}}"#),
        r#"{"result":{"bytes_written":6}}"#
    );
    // "XY" over "cd": an offset keeps what is there.
    assert_eq!(
        go(r#"{"name":"fs_write_bytes","args":{"path":"/host/f","data":"WFk=","offset":2}}"#),
        r#"{"result":{"bytes_written":2}}"#
    );
    assert_eq!(
        go(r#"{"name":"fs_read","args":{"path":"/host/f"}}"#),
        r#"{"result":{"text":"abXYef"}}"#
    );
    // Appending ignores the offset.
    go(r#"{"name":"fs_write_bytes","args":{"path":"/host/f","data":"IQ==","offset":0,"append":true}}"#);
    assert_eq!(
        go(r#"{"name":"fs_read","args":{"path":"/host/f"}}"#),
        r#"{"result":{"text":"abXYef!"}}"#
    );
    assert_eq!(
        go(r#"{"name":"fs_read_bytes","args":{"path":"/host/f","offset":2,"len":2}}"#),
        canonical(r#"{"result":{"data":"WFk=","eof":false,"bytes_read":2}}"#)
    );
    // Behind the end there is nothing to read.
    assert_eq!(
        go(r#"{"name":"fs_read_bytes","args":{"path":"/host/f","offset":100,"len":2}}"#),
        canonical(r#"{"result":{"data":"","eof":true,"bytes_read":0}}"#)
    );
    assert_eq!(
        go(r#"{"name":"fs_truncate","args":{"path":"/host/f","length":3}}"#),
        r#"{"result":{}}"#
    );
    assert_eq!(
        go(r#"{"name":"fs_stat","args":{"path":"/host/f"}}"#),
        canonical(r#"{"result":{"size":3,"is_dir":false,"is_file":true}}"#)
    );
    assert_eq!(
        go(r#"{"name":"fs_write","args":{"path":"/host/f","text":"é","append":true}}"#),
        r#"{"result":{"bytes_written":2}}"#
    );
    assert_eq!(
        go(r#"{"name":"fs_write_bytes","args":{"path":"/host/f","data":"?"}}"#),
        r#"{"error":"fs_write_bytes: bad base64: Invalid symbol 63, offset 0."}"#
    );
}

#[test]
fn fs_directories() {
    let mut disk = Disk::new(&[ROOT]);
    let router = router(&[(ROOT, "/host")]);
    let mut go = |req: &str| dispatch(&mut disk, &router, req.as_bytes());
    assert_eq!(go(r#"{"name":"fs_mkdir","args":{"path":"/host/d"}}"#), r#"{"result":{}}"#);
    assert_eq!(
        go(r#"{"name":"fs_mkdir","args":{"path":"/host/d"}}"#),
        r#"{"error":"fs_mkdir \"/host/d\": File exists (os error 17)"}"#
    );
    assert_eq!(
        go(r#"{"name":"fs_mkdir","args":{"path":"/host/p/q"}}"#),
        r#"{"error":"fs_mkdir \"/host/p/q\": No such file or directory (os error 2)"}"#
    );
    assert_eq!(
        go(r#"{"name":"fs_mkdir","args":{"path":"/host/p/q","parents":true}}"#),
        r#"{"result":{}}"#
    );
    go(r#"{"name":"fs_write","args":{"path":"/host/f","text":""}}"#);
    assert_eq!(
        go(r#"{"name":"fs_list","args":{"path":"/host"}}"#),
        concat_entries(&[("d", true), ("f", false), ("p", true)])
    );
    assert_eq!(go(r#"{"name":"fs_unlink","args":{"path":"/host/f"}}"#), r#"{"result":{}}"#);
    assert_eq!(go(r#"{"name":"fs_unlink","args":{"path":"/host/d"}}"#), r#"{"result":{}}"#);
    assert_eq!(
        go(r#"{"name":"fs_unlink","args":{"path":"/host/d"}}"#),
        r#"{"error":"fs_unlink \"/host/d\": No such file or directory (os error 2)"}"#
    );
}

fn concat_entries(list: &[(&str, bool)]) -> String {
    let items: Vec<String> = list
        .iter()
        .map(|(n, d)| {
            format!(
                r#"{{"name":"{n}","is_dir":{d},"is_file":{},"is_symlink":false}}"#,
                !d
            )
        })
        .collect();
    canonical(&format!(r#"{{"result":{{"entries":[{}]}}}}"#, items.join(",")))
}

#[test]
fn fs_calls_without_their_arguments() {
    let mut disk = Disk::new(&[ROOT]);
    let router = router(&[(ROOT, "/host")]);
    let cases = [
        (r#"{"name":"fs_read"}"#, "fs_read: missing 'path'"),
        (r#"{"name":"fs_write","args":{"path":7}}"#, "fs_write: missing 'path'"),
        (r#"{"name":"fs_write","args":{"path":"/host/x"}}"#, "fs_write: missing 'text'"),
        (r#"{"name":"fs_stat","args":[]}"#, "fs_stat: missing 'path'"),
        (r#"{"name":"fs_read_bytes","args":null}"#, "fs_read_bytes: missing 'path'"),
        (r#"{"name":"fs_write_bytes","args":{"path":"p"}}"#, "fs_write_bytes: missing 'data'"),
        (r#"{"name":"fs_truncate","args":{"path":"p","length":-1}}"#, "fs_truncate: missing 'length'"),
        (r#"{"name":"fs_mkdir","args":{}}"#, "fs_mkdir: missing 'path'"),
        (r#"{"name":"fs_unlink","args":{}}"#, "fs_unlink: missing 'path'"),
    ];
    for (req, expected) in cases {
        let s = dispatch(&mut disk, &router, req.as_bytes());
        assert_eq!(s, format!(r#"{{"error":"{expected}"}}"#));
    }
    assert_eq!(
        dispatch(&mut disk, &router, br#"{"name":"fs_list","args":{}}"#),
        r#"{"error":"path \"\" does not match any preopened mount"}"#
    );
}

#[test]
fn fs_failures_name_the_step() {
    let router = router(&[(ROOT, "/host")]);
    let op = |tool: FsTool, args: &str| {
        let args: Value = serde_json::from_str(args).unwrap();
        let mut step = router.start(tool, &args);
        loop {
            step = match step {
                FsStep::Act(op) => return op,
                FsStep::Ask(call, r) => {
                    let answer = Disk::new(&[ROOT]).answer(r.query());
                    go_on(call, r, answer)
                }
                FsStep::Reply(r) => panic!("{r:?}"),
            };
        }
    };
    let error = |op: FsOp, event: FsEvent| match finish(op, event) {
        FsStep::Reply(Err(m)) => m,
        other => panic!("{other:?}"),
    };
    let read = op(FsTool::ReadBytes, r#"{"path":"/host/f","offset":9}"#);
    assert_eq!(read.action, FsAction::ReadAt { seek: Some(9), want: 65536 });
    assert_eq!(
        error(read, FsEvent::SeekFailed("bad".to_string())),
        "fs_read_bytes seek \"/host/f\": bad"
    );
    let list = op(FsTool::List, r#"{"path":"/host"}"#);
    assert_eq!(error(list, FsEvent::EntryFailed("raw".to_string())), "raw");
    let write = op(FsTool::Write, r#"{"path":"/host/f","text":"t","append":true}"#);
    assert_eq!(
        write.action,
        FsAction::Write { truncate: false, append: true, seek: None }
    );
    assert_eq!(
        error(write, FsEvent::Failed("full".to_string())),
        "fs_write \"/host/f\": full"
    );
}

#[test]
fn the_longest_mount_wins() {
    let r = router(&[("/a", "/data"), ("/b", "/data/public"), ("/c", "/dat")]);
    let go = |path: &str| r.route(path).map(|(fs, rel)| (text(fs.root()), rel));
    assert_eq!(go("/data/x").unwrap(), ("/a".to_string(), "x".to_string()));
    assert_eq!(go("/data/public/x/y").unwrap(), ("/b".to_string(), "x/y".to_string()));
    assert_eq!(go("/data/public").unwrap(), ("/b".to_string(), String::new()));
    assert_eq!(go("/data/publicity").unwrap(), ("/a".to_string(), "publicity".to_string()));
    assert_eq!(
        go("/database").unwrap_err(),
        "path \"/database\" does not match any preopened mount"
    );
}

#[test]
fn mounts_of_the_same_length_keep_their_order() {
    let r = router(&[("/a", "/x"), ("/b", "/yy"), ("/c", "/z"), ("/d", "/ww"), ("/e", "/x")]);
    let order: Vec<String> = r.entries.iter().map(|(_, fs)| text(fs.root())).collect();
    assert_eq!(order, ["/b", "/d", "/a", "/c", "/e"]);
}

#[test]
fn a_router_needs_usable_directories() {
    let preopens = [
        Preopen::new("/a", "/x", Ok(host("/a"))).unwrap(),
        Preopen::new("/b", "/y", Ok(host("/b"))).unwrap(),
    ];
    let err = FsRouter::new(
        &preopens,
        &[
            RootProbe::Canonical(host("/a"), true),
            RootProbe::Unresolved("gone".to_string()),
        ],
    )
    .unwrap_err();
    assert_eq!(err.message(), "canonicalize mount root \"/b\": gone");
}
