use hyperlight_unikraft::mount::{check_distinct_mounts, Preopen};
use hyperlight_unikraft::path::HostPath;

fn dir(text: &str) -> HostPath {
    HostPath::parse(text.as_bytes()).unwrap()
}

fn opened(host: &str, guest: &str) -> Preopen {
    Preopen::new(host, guest, Ok(dir(host))).unwrap()
}

#[test]
fn preopen_parse_defaults_guest_to_host() {
    let spec = Preopen::parse_cli("/tmp/po1").unwrap();
    assert_eq!(spec.host_dir, "/tmp/po1");
    let p = Preopen::new(&spec.host_dir, &spec.guest_path, Ok(dir("/tmp/po1"))).unwrap();
    assert_eq!(p.guest_path, "/host");
    assert_eq!(p.host_dir, dir("/tmp/po1"));
}

#[test]
fn preopen_parse_accepts_custom_guest_path() {
    let spec = format!("{}:/data", "/tmp/po2");
    let p = Preopen::parse_cli(&spec).unwrap();
    assert_eq!(p.guest_path, "/data");
    assert_eq!(p.host_dir, "/tmp/po2");
}

#[test]
fn preopen_rejects_reserved_guest_path() {
    for reserved in &["/", "/bin", "/dev", "/proc", "/sys", "/usr", "/bin/foo"] {
        let err = Preopen::new("/tmp/po3", reserved, Ok(dir("/tmp/po3")))
            .unwrap_err()
            .message();
        assert!(err.contains("reserved"), "{reserved}: {err}");
    }
}

#[test]
fn preopen_rejects_relative_guest_path() {
    let err = Preopen::new("/tmp/po4", "relative", Ok(dir("/tmp/po4")))
        .unwrap_err()
        .message();
    assert!(err.contains("absolute"), "{err}");
    assert_eq!(err, "guest mount path \"relative\" must be absolute");
}

#[test]
fn preopen_splits_at_the_last_colon_before_an_absolute_path() {
    let spec = Preopen::parse_cli("C:/a:b:/data").unwrap();
    assert_eq!((spec.host_dir.as_str(), spec.guest_path.as_str()), ("C:/a:b", "/data"));
    let spec = Preopen::parse_cli("C:work").unwrap();
    assert_eq!((spec.host_dir.as_str(), spec.guest_path.as_str()), ("C:work", "/host"));
    // A drive letter is followed by an absolute path, which is taken for the guest's.
    let spec = Preopen::parse_cli("C:/work").unwrap();
    assert_eq!((spec.host_dir.as_str(), spec.guest_path.as_str()), ("C", "/work"));
    let spec = Preopen::parse_cli("").unwrap();
    assert_eq!((spec.host_dir.as_str(), spec.guest_path.as_str()), ("", "/host"));
}

#[test]
fn preopen_parse_reports_bad_guest_paths() {
    assert_eq!(
        Preopen::parse_cli("./work:/proc/x").unwrap_err().message(),
        "refusing to mount at guest path \"/proc/x\": shadows reserved kernel dir"
    );
    // A path that only begins like a reserved one is fine.
    assert_eq!(Preopen::parse_cli("./work:/binary").unwrap().guest_path, "/binary");
    // Two slashes lie below the root directory.
    assert!(Preopen::parse_cli("./work://data").is_err());
}

#[test]
fn preopen_reports_a_missing_host_directory() {
    let err = Preopen::new("./gone", "/data", Err("No such file".to_string())).unwrap_err();
    assert_eq!(
        err.message(),
        "canonicalize preopen host dir \"./gone\": No such file"
    );
}

#[test]
fn duplicate_mounts_are_rejected() {
    assert!(check_distinct_mounts(&[]).is_ok());
    assert!(check_distinct_mounts(&[opened("/a", "/x"), opened("/a", "/y")]).is_ok());
    let err = check_distinct_mounts(&[
        opened("/a", "/x"),
        opened("/b", "/y"),
        opened("/c", "/z"),
        opened("/d", "/y"),
        opened("/e", "/x"),
    ])
    .unwrap_err();
    assert_eq!(err, "duplicate --mount guest path: \"/x\"");
}
