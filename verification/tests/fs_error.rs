use hyperlight_unikraft::fs_error::normalize_fs_error;

#[test]
fn normalize_enoent_rewrites_windows_wording_to_linux() {
    // Windows Rust I/O wording:
    let win = "fs_stat \"/host/x\": The system cannot find the file specified. (os error 2)";
    let out = normalize_fs_error(win);
    assert!(
        out.contains("No such file or directory"),
        "expected Linux wording, got: {out}"
    );
    assert!(out.contains("(os error 2)"));
    assert!(out.starts_with("fs_stat \"/host/x\":"));
}

#[test]
fn normalize_leaves_linux_wording_alone() {
    let linux = "fs_stat \"/host/x\": No such file or directory (os error 2)";
    let out = normalize_fs_error(linux);
    assert!(out.contains("No such file or directory (os error 2)"));
}

#[test]
fn normalize_passes_unknown_errors_through() {
    let weird = "fs_stat \"/host/x\": something extremely unusual happened";
    let out = normalize_fs_error(weird);
    assert_eq!(out, weird);
}

#[test]
fn normalize_knows_every_class() {
    let classes = [
        (2, "No such file or directory"),
        (13, "Permission denied"),
        (17, "File exists"),
        (20, "Not a directory"),
        (21, "Is a directory"),
        (39, "Directory not empty"),
    ];
    for (number, wording) in classes {
        let out = normalize_fs_error(&format!("fs_x \"/host/y\": anything (os error {number})"));
        assert_eq!(out, format!("fs_x \"/host/y\": {wording} (os error {number})"));
    }
}

#[test]
fn normalize_without_context_keeps_no_context() {
    assert_eq!(
        normalize_fs_error("denied (os error 13)"),
        "Permission denied (os error 13)"
    );
}

#[test]
fn normalize_is_idempotent_and_keeps_the_first_context() {
    let once = normalize_fs_error("a: b: c (os error 17)");
    assert_eq!(once, "a: File exists (os error 17)");
    assert_eq!(normalize_fs_error(&once), once);
}

#[test]
fn normalize_goes_by_the_suffix_alone() {
    assert_eq!(
        normalize_fs_error("x: y (os error 39) (os error 2)"),
        "x: No such file or directory (os error 2)"
    );
    for other in [
        "fs_stat \"/host/a (os error 2)\": odd failure",
        "x (os error 13) y",
        "y (os error 2",
        "y (os error 22)",
        "",
    ] {
        assert_eq!(normalize_fs_error(other), other);
    }
    assert_eq!(
        normalize_fs_error("fs_stat \"/host/a (os error 2)\": denied (os error 13)"),
        "fs_stat \"/host/a (os error 2)\": Permission denied (os error 13)"
    );
}
