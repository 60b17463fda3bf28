use hyperlight_unikraft::initdata::{
    build_cmdline_initdata, build_cmdline_initdata_at, prepend_cmdline_to_initrd,
    prepend_cmdline_to_initrd_at, wall_clock_field, write_cmdline_mount_tlv, CMDLINE_MAGIC,
    MOUNT_MAGIC, WALLTIME_MAGIC,
};
use hyperlight_unikraft::mount::Preopen;
use hyperlight_unikraft::path::HostPath;

fn opened(host: &str, guest: &str) -> Preopen {
    Preopen::new(host, guest, Ok(HostPath::parse(host.as_bytes()).unwrap())).unwrap()
}

fn find_subslice(haystack: &[u8], needle: &[u8]) -> Option<usize> {
    haystack.windows(needle.len()).position(|w| w == needle)
}

#[test]
fn initdata_carries_mount_tlv_when_preopens_set() {
    let preopens = vec![opened("/tmp/mnt-a", "/data"), opened("/tmp/mnt-b", "/logs")];
    let buf = build_cmdline_initdata(&["/hello".to_string()], 0, &preopens).expect("initdata");
    assert!(buf.starts_with(&CMDLINE_MAGIC), "cmdline magic missing");
    let off = find_subslice(&buf, &MOUNT_MAGIC).expect("mount magic missing");
    let count_off = off + MOUNT_MAGIC.len();
    let count = u32::from_le_bytes(buf[count_off..count_off + 4].try_into().unwrap());
    assert_eq!(count, 2);
    // First path is /data, second is /logs.
    let mut p = count_off + 4;
    for expected in ["/data", "/logs"] {
        let len = u32::from_le_bytes(buf[p..p + 4].try_into().unwrap()) as usize;
        assert_eq!(&buf[p + 4..p + 4 + len], expected.as_bytes());
        assert_eq!(buf[p + 4 + len], 0);
        p += 4 + len + 1;
    }
}

#[test]
fn initdata_omits_mount_tlv_when_no_preopens() {
    let buf = build_cmdline_initdata(&["/hello".to_string()], 0, &[]).expect("initdata");
    assert!(buf.starts_with(&CMDLINE_MAGIC));
    assert!(
        find_subslice(&buf, &MOUNT_MAGIC).is_none(),
        "no mount TLV expected"
    );
}

#[test]
fn magics_are_the_documented_texts() {
    assert_eq!(&CMDLINE_MAGIC, b"HLCMDLN\0");
    assert_eq!(&MOUNT_MAGIC, b"HLHSMNT\0");
    assert_eq!(&WALLTIME_MAGIC, b"HLWALL0\0");
}

#[test]
fn blocks_byte_by_byte() {
    let mut buf = vec![7u8];
    write_cmdline_mount_tlv(&mut buf, b"ab", &[opened("/x", "/d")], 0x0102030405060708);
    let mut expected = vec![7u8];
    expected.extend_from_slice(b"HLCMDLN\0\x02\0\0\0ab\0");
    expected.extend_from_slice(b"HLHSMNT\0\x01\0\0\0\x02\0\0\0/d\0");
    expected.extend_from_slice(b"HLWALL0\0\x08\0\0\0\x08\x07\x06\x05\x04\x03\x02\x01");
    assert_eq!(buf, expected);
}

#[test]
fn nothing_to_say_is_no_data() {
    assert_eq!(build_cmdline_initdata(&[], 0, &[]), None);
    assert_eq!(build_cmdline_initdata(&[String::new()], 0, &[]), None);
    assert_eq!(prepend_cmdline_to_initrd(None, &[], &[]), None);
    assert_eq!(prepend_cmdline_to_initrd(Some(b"cpio"), &[], &[]), Some(b"cpio".to_vec()));
}

#[test]
fn mapped_size_is_the_footer() {
    let buf = build_cmdline_initdata(&[], 0x1122334455, &[]).unwrap();
    assert_eq!(buf.len(), 4096);
    assert_eq!(&buf[4088..], &0x1122334455u64.to_le_bytes());
    assert_eq!(&buf[..13], b"HLCMDLN\0\0\0\0\0\0");
}

#[test]
fn the_footer_stands_behind_the_whole_header() {
    // 33 bytes of framing: 4055 bytes of arguments fill the page up to the footer.
    for (len, pages) in [(4055usize, 1usize), (4056, 2), (4062, 2), (4063, 2), (4064, 2), (8151, 2), (8152, 3)] {
        let arg = "a".repeat(len);
        let buf = build_cmdline_initdata_at(&[arg.clone()], 7, &[], u64::MAX).unwrap();
        assert_eq!(buf.len(), pages * 4096, "{len}");
        assert_eq!(&buf[buf.len() - 8..], &7u64.to_le_bytes());
        assert_eq!(&buf[12..12 + len], arg.as_bytes());
        let clock = 13 + len + 12;
        assert_eq!(&buf[13 + len..13 + len + 8], &WALLTIME_MAGIC);
        assert_eq!(buf[clock..clock + 8], [255u8; 8], "{len}");
        assert!(buf[clock + 8..buf.len() - 8].iter().all(|b| *b == 0));
    }
}

#[test]
fn prepended_initrd_starts_at_the_next_page() {
    let args = ["/app".to_string(), "x y".to_string()];
    let buf = prepend_cmdline_to_initrd_at(Some(b"070701"), &args, &[], 5).unwrap();
    assert_eq!(&buf[..12], b"HLCMDLN\0\x08\0\0\0");
    assert_eq!(&buf[12..21], b"/app x y\0");
    assert_eq!(&buf[21..29], &WALLTIME_MAGIC);
    assert_eq!(&buf[33..41], &5u64.to_le_bytes());
    assert!(buf[41..4096].iter().all(|b| *b == 0));
    assert_eq!(&buf[4096..], b"070701");
    // A header that fills its pages is not padded.
    let exact = prepend_cmdline_to_initrd_at(None, &["b".repeat(4063)], &[], 5).unwrap();
    assert_eq!(exact.len(), 4096);
}

#[test]
fn mounts_alone_make_a_header() {
    let buf = prepend_cmdline_to_initrd(Some(b"i"), &[], &[opened("/x", "/data")]).unwrap();
    assert_eq!(buf.len(), 4097);
    assert_eq!(&buf[13..21], &MOUNT_MAGIC);
}

#[test]
fn wall_clock_reading() {
    assert_eq!(wall_clock_field(None), 0);
    assert_eq!(wall_clock_field(Some(17)), 17);
    assert_eq!(wall_clock_field(Some(1u128 << 64)), 0);
    // The clock of the machine stands after 2020.
    let buf = build_cmdline_initdata(&["x".to_string()], 0, &[]).unwrap();
    let now = u64::from_le_bytes(buf[26..34].try_into().unwrap());
    assert!(now > 1_577_836_800_000_000_000, "{now}");
}
