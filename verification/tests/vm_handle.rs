use hyperlight_unikraft::vm_handle::{
    check_kernel, create_vm, finish_vm, guest_region, start_vm, CFile, CText, VmRequest,
    HL_STATUS_CREATED, HL_STATUS_ERROR, HL_STATUS_RUNNING, HL_STATUS_STOPPED,
};

fn text(s: &str) -> CText {
    CText::Text(s.to_string())
}

fn request(kernel: CText, initrd: CFile) -> VmRequest {
    VmRequest {
        kernel_path: kernel,
        initrd,
        app_args: vec![],
        heap_size: 3,
        stack_size: 4,
    }
}

#[test]
fn requests_that_are_rejected() {
    let err = |r: Option<VmRequest>| create_vm(r).unwrap_err();
    assert_eq!(err(None), "config is null");
    assert_eq!(err(Some(request(CText::Null, CFile::Null))), "kernel_path is null");
    assert_eq!(
        err(Some(request(CText::Invalid("bad".to_string()), CFile::Null))),
        "invalid kernel_path: bad"
    );
    assert_eq!(
        err(Some(request(text("k"), CFile::Invalid("worse".to_string())))),
        "invalid initrd_path: worse"
    );
    let unread = CFile::At("i.cpio".to_string(), Err("denied".to_string()));
    assert_eq!(
        err(Some(request(text("k"), unread))),
        "failed to read initrd i.cpio: denied"
    );
}

#[test]
fn a_created_vm() {
    let vm = create_vm(Some(request(text("k"), CFile::Null))).unwrap();
    assert_eq!(vm.kernel_path, "k");
    assert_eq!((vm.status, vm.error.as_deref()), (HL_STATUS_CREATED, None));
    assert_eq!(vm.initrd_data, None);
    assert_eq!(guest_region(vm.heap_size, vm.stack_size), 7);
    let read = CFile::At("i".to_string(), Ok(b"cpio".to_vec()));
    let vm = create_vm(Some(request(text("k"), read))).unwrap();
    assert_eq!(vm.initrd_data.as_deref(), Some(&b"cpio"[..]));
}

#[test]
fn arguments_that_are_no_text_are_left_out() {
    let mut q = request(text("k"), CFile::At("i".to_string(), Ok(b"cpio".to_vec())));
    q.app_args = vec![text("a"), CText::Null, CText::Invalid("x".to_string()), text("b")];
    let data = create_vm(Some(q)).unwrap().initrd_data.unwrap();
    assert_eq!(&data[..16], b"HLCMDLN\0\x03\0\0\0a b\0");
    assert_eq!(&data[4096..], b"cpio");
}

#[test]
fn a_vm_starts_once() {
    assert_eq!(start_vm(HL_STATUS_CREATED), Ok(HL_STATUS_RUNNING));
    for status in [HL_STATUS_RUNNING, HL_STATUS_STOPPED, HL_STATUS_ERROR] {
        assert_eq!(start_vm(status).unwrap_err(), "VM is not in CREATED state");
    }
    assert_eq!(finish_vm(Ok(())), (HL_STATUS_STOPPED, None));
    assert_eq!(
        finish_vm(Err("boom".to_string())),
        (HL_STATUS_ERROR, Some("boom".to_string()))
    );
    assert_eq!(
        [HL_STATUS_CREATED, HL_STATUS_RUNNING, HL_STATUS_STOPPED, HL_STATUS_ERROR],
        [0, 1, 2, 3]
    );
}

#[test]
fn a_missing_kernel() {
    assert!(check_kernel("k", true).is_ok());
    assert_eq!(check_kernel("a k", false).unwrap_err(), "kernel not found: a k");
}
