use hyperlight_unikraft::memory::{parse_memory, MemoryError, VmConfig};

#[test]
fn memory_units() {
    assert_eq!(parse_memory("512Mi").unwrap(), 512 * 1024 * 1024);
    assert_eq!(parse_memory("1Gi").unwrap(), 1024 * 1024 * 1024);
    assert_eq!(parse_memory("3Ki").unwrap(), 3072);
    assert_eq!(parse_memory("2G").unwrap(), 2_000_000_000);
    assert_eq!(parse_memory("5M").unwrap(), 5_000_000);
    assert_eq!(parse_memory("7K").unwrap(), 7000);
    assert_eq!(parse_memory(" 42\n").unwrap(), 42);
    assert_eq!(parse_memory("+8Mi").unwrap(), 8 * 1024 * 1024);
}

#[test]
fn memory_errors() {
    assert_eq!(parse_memory("Mi").unwrap_err().message(), "cannot parse integer from empty string");
    assert_eq!(parse_memory("x1Gi").unwrap_err().message(), "invalid digit found in string");
    assert_eq!(
        parse_memory("99999999999999999999K").unwrap_err().message(),
        "number too large to fit in target type"
    );
    assert_eq!(
        parse_memory("12Q").unwrap_err().message(),
        "Invalid memory format: invalid digit found in string"
    );
    assert_eq!(
        parse_memory("").unwrap_err().message(),
        "Invalid memory format: cannot parse integer from empty string"
    );
}

#[test]
fn a_size_that_does_not_fit_is_an_error() {
    assert_eq!(parse_memory("17179869183Gi").unwrap(), 17179869183 * 1024 * 1024 * 1024);
    assert_eq!(parse_memory("17179869184Gi"), Err(MemoryError::TooLarge));
    assert_eq!(parse_memory("18446744073709551615K"), Err(MemoryError::TooLarge));
    assert_eq!(
        parse_memory("18446744073709551615Gi").unwrap_err().message(),
        "memory size too large"
    );
}

#[test]
fn default_config_and_setters() {
    let config = VmConfig::default();
    assert_eq!(config.heap_size, 512 * 1024 * 1024);
    assert_eq!(config.stack_size, 8 * 1024 * 1024);
    let config = config.with_heap_size(1).with_stack_size(2);
    assert_eq!((config.heap_size, config.stack_size), (1, 2));
}

#[test]
fn scratch_sizes() {
    // 512 MiB: 272 table pages and a quarter of the heap.
    let sizes = VmConfig::default().sandbox_config();
    assert_eq!(sizes.heap_size, 512 * 1024 * 1024);
    assert_eq!(sizes.scratch_size, 272 * 4096 + 128 * 1024 * 1024);
    // A small heap: the least base.
    let sizes = VmConfig::default().with_heap_size(4096).sandbox_config();
    assert_eq!(sizes.scratch_size, 16 * 4096 + 64 * 1024 * 1024);
    // An odd heap is rounded up to whole pages.
    let sizes = VmConfig::default().with_heap_size(1024 * 1024 * 1024 + 4).sandbox_config();
    assert_eq!(sizes.scratch_size % 4096, 0);
    assert_eq!(sizes.scratch_size, 528 * 4096 + 256 * 1024 * 1024 + 4096);
}

#[test]
fn plain_numbers_and_white_space() {
    for n in [0u64, 9, 10, 4096, u64::MAX] {
        assert_eq!(parse_memory(&n.to_string()).unwrap(), n);
    }
    for s in ["512Mi", "0", "7K", "x", ""] {
        assert_eq!(parse_memory(&format!(" \t{s}\u{3000}\r\n")), parse_memory(s));
    }
}
