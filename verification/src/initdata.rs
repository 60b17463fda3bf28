//! The header that carries the command line, the mounts and the wall clock into
//! the guest.
//!
//! Layout:
//!
//! ```text
//! [HLCMDLN\0][cmdline_len u32][cmdline…][\0]
//! [HLHSMNT\0][count u32]([path_len u32][path…][\0])*count   (where there are mounts)
//! [HLWALL0\0][8 u32][wall_ns u64]
//! ```
//!
//! All numbers are little-endian. The header is padded with zeros to whole pages.

use crate::memory;
use crate::mount::Preopen;
use crate::text;
use crate::text::join;
use std::time::{Duration, SystemTime};
use vstd::bytes::*;
use vstd::prelude::*;
use vstd::string::*;
use vstd::utf8::*;

verus! {

/// Magic header for the command line: `HLCMDLN\0`.
pub const CMDLINE_MAGIC: [u8; 8] = [72, 76, 67, 77, 68, 76, 78, 0];

/// Magic header for the mount points: `HLHSMNT\0`.
pub const MOUNT_MAGIC: [u8; 8] = [72, 76, 72, 83, 77, 78, 84, 0];

/// Magic header for the wall clock at boot: `HLWALL0\0`.
pub const WALLTIME_MAGIC: [u8; 8] = [72, 76, 87, 65, 76, 76, 48, 0];

/// The length of a page.
pub const PAGE: usize = 4096;

// ---------------------------------------------------------------------------
// The wall clock
// ---------------------------------------------------------------------------

/// `std::time::SystemTime`.
#[verifier::external_type_specification]
#[verifier::external_body]
pub struct ExSystemTime(std::time::SystemTime);

/// `SystemTime::now`. Nothing is promised of the value: it depends on the machine's
/// clock.
#[verifier::external_body]
fn clock_now() -> (r: SystemTime) {
    SystemTime::now()
}

/// `SystemTime::duration_since` the Unix epoch; `None` where the time is before it.
/// Nothing is promised of the value, as nothing is known of the time.
#[verifier::external_body]
fn since_epoch(t: SystemTime) -> (r: Option<Duration>) {
    t.duration_since(std::time::UNIX_EPOCH).ok()
}

/// `Duration::as_nanos`. Nothing is promised of the value, as nothing is known of
/// the duration.
#[verifier::external_body]
fn nanoseconds(d: Duration) -> (r: u128) {
    d.as_nanos()
}

/// The time since the Unix epoch in nanoseconds; `None` where the clock stands
/// before it.
fn read_clock() -> (r: Option<u128>) {
    match since_epoch(clock_now()) {
        Some(d) => Some(nanoseconds(d)),
        None => None,
    }
}

/// The clock reading as it is written into the header: the low 64 bits of the
/// nanoseconds since the epoch, or 0 where the clock stands before it.
pub open spec fn clock_field(reading: Option<u128>) -> u64 {
    match reading {
        Some(ns) => ns as u64,
        None => 0,
    }
}

/// The clock reading as it is written into the header.
pub fn wall_clock_field(reading: Option<u128>) -> (r: u64)
    ensures
        r == clock_field(reading),
{
    match reading {
        Some(ns) => #[verifier::truncate]
        (ns as u64),
        None => 0,
    }
}

// ---------------------------------------------------------------------------
// The layout
// ---------------------------------------------------------------------------

/// The command-line block.
pub open spec fn cmdline_block(cmdline: Seq<u8>) -> Seq<u8> {
    CMDLINE_MAGIC@ + spec_u32_to_le_bytes(cmdline.len() as u32) + cmdline + seq![0u8]
}

/// One mount point.
pub open spec fn mount_entry(path: Seq<u8>) -> Seq<u8> {
    spec_u32_to_le_bytes(path.len() as u32) + path + seq![0u8]
}

/// Mount points one after the other.
pub open spec fn mount_entries(paths: Seq<Seq<u8>>) -> Seq<u8>
    decreases paths.len(),
{
    if paths.len() == 0 {
        Seq::empty()
    } else {
        mount_entries(paths.drop_last()) + mount_entry(paths.last())
    }
}

/// The mount block, which is left out where there are no mounts.
pub open spec fn mount_block(paths: Seq<Seq<u8>>) -> Seq<u8> {
    if paths.len() == 0 {
        Seq::empty()
    } else {
        MOUNT_MAGIC@ + spec_u32_to_le_bytes(paths.len() as u32) + mount_entries(paths)
    }
}

/// The wall-clock block.
pub open spec fn wall_block(wall_ns: u64) -> Seq<u8> {
    WALLTIME_MAGIC@ + spec_u32_to_le_bytes(8) + spec_u64_to_le_bytes(wall_ns)
}

/// The three blocks.
pub open spec fn header_blocks(cmdline: Seq<u8>, paths: Seq<Seq<u8>>, wall_ns: u64) -> Seq<u8> {
    cmdline_block(cmdline) + mount_block(paths) + wall_block(wall_ns)
}

/// The guest paths of some mounts, as bytes.
pub open spec fn guest_paths(preopens: Seq<Preopen>) -> Seq<Seq<u8>> {
    preopens.map_values(|p: Preopen| encode_utf8(p.guest_path@))
}

/// The command line: the arguments with spaces between them.
pub open spec fn cmdline_text(args: Seq<String>) -> Seq<char> {
    text::joined(text::texts(args), " "@)
}

/// The blocks for some arguments and mounts.
pub open spec fn blocks_for(args: Seq<String>, preopens: Seq<Preopen>, wall_ns: u64) -> Seq<u8> {
    header_blocks(encode_utf8(cmdline_text(args)), guest_paths(preopens), wall_ns)
}

/// `n` zeros.
pub open spec fn zeros(n: int) -> Seq<u8> {
    Seq::new(n as nat, |i: int| 0u8)
}

/// `b` filled up to `n` bytes with zeros.
pub open spec fn padded(b: Seq<u8>, n: int) -> Seq<u8>
    recommends
        b.len() <= n,
{
    b + zeros(n - b.len())
}

/// The length of the whole pages that hold `n` bytes.
pub open spec fn whole_pages(n: nat) -> int {
    memory::rounded_up(n as int, PAGE as int)
}

/// The init data for a mapped initrd: the blocks, and behind them, in the last
/// eight bytes of whole pages, the size of the mapped file.
pub open spec fn initdata(blocks: Seq<u8>, mapped_initrd_size: u64) -> Seq<u8> {
    padded(blocks, whole_pages(blocks.len() + 8) - 8) + spec_u64_to_le_bytes(mapped_initrd_size)
}

/// The blocks in whole pages, and the initrd behind them.
pub open spec fn prefixed_initrd(blocks: Seq<u8>, initrd: Option<Seq<u8>>) -> Seq<u8> {
    padded(blocks, whole_pages(blocks.len())) + match initrd {
        Some(d) => d,
        None => Seq::empty(),
    }
}

// ---------------------------------------------------------------------------
// Writing
// ---------------------------------------------------------------------------

/// Appends `b` to `out`.
fn append_bytes(out: &mut Vec<u8>, b: &[u8])
    ensures
        final(out)@ == old(out)@ + b@,
{
    out.extend_from_slice(b);
    assert(out@ =~= old(out)@ + b@);
}

/// Appends `n` zeros to `out`.
fn append_zeros(out: &mut Vec<u8>, n: usize)
    ensures
        final(out)@ == old(out)@ + zeros(n as int),
{
    let ghost start = out@;
    for i in 0..n
        invariant
            out@ == start + zeros(i as int),
    {
        out.push(0);
        assert(out@ =~= start + zeros(i + 1));
    }
}

/// Serialize the shared "cmdline + mounts + wall clock" block into `buf`.
pub fn write_cmdline_mount_tlv(
    buf: &mut Vec<u8>,
    cmdline_bytes: &[u8],
    preopens: &[Preopen],
    wall_ns: u64,
)
    ensures
        final(buf)@ == old(buf)@ + header_blocks(cmdline_bytes@, guest_paths(preopens@), wall_ns),
{
    let ghost start = buf@;
    let ghost paths = guest_paths(preopens@);
    let cmdline_len: u32 = #[verifier::truncate]
    (cmdline_bytes.len() as u32);
    append_bytes(buf, &CMDLINE_MAGIC);
    append_bytes(buf, &u32_to_le_bytes(cmdline_len));
    append_bytes(buf, cmdline_bytes);
    buf.push(0);
    assert(buf@ =~= start + cmdline_block(cmdline_bytes@));

    if preopens.len() > 0 {
        let ghost before = buf@ + MOUNT_MAGIC@ + spec_u32_to_le_bytes(paths.len() as u32);
        let count: u32 = #[verifier::truncate]
        (preopens.len() as u32);
        append_bytes(buf, &MOUNT_MAGIC);
        append_bytes(buf, &u32_to_le_bytes(count));
        assert(paths.take(0) =~= Seq::empty());
        assert(buf@ =~= before + mount_entries(paths.take(0)));
        for i in 0..preopens.len()
            invariant
                paths == guest_paths(preopens@),
                buf@ == before + mount_entries(paths.take(i as int)),
        {
            let b = preopens[i].guest_path.as_str().as_bytes();
            let len: u32 = #[verifier::truncate]
            (b.len() as u32);
            append_bytes(buf, &u32_to_le_bytes(len));
            append_bytes(buf, b);
            buf.push(0);
            proof {
                assert(paths[i as int] == b@);
                assert(paths.take(i + 1).drop_last() =~= paths.take(i as int));
                assert(buf@ =~= before + mount_entries(paths.take(i as int)) + mount_entry(b@));
                assert(buf@ =~= before + mount_entries(paths.take(i + 1)));
            }
        }
        assert(paths.take(preopens@.len() as int) =~= paths);
        assert(buf@ =~= start + cmdline_block(cmdline_bytes@) + mount_block(paths));
    } else {
        assert(buf@ =~= start + cmdline_block(cmdline_bytes@) + mount_block(paths));
    }
    append_bytes(buf, &WALLTIME_MAGIC);
    append_bytes(buf, &u32_to_le_bytes(8));
    append_bytes(buf, &u64_to_le_bytes(wall_ns));
    assert(buf@ =~= start + header_blocks(cmdline_bytes@, paths, wall_ns));
}

/// Build the init data for a mapped initrd, with the given wall clock.
/// There is none where there is nothing to say.
pub fn build_cmdline_initdata_at(
    app_args: &[String],
    mapped_initrd_size: u64,
    preopens: &[Preopen],
    wall_ns: u64,
) -> (r: Option<Vec<u8>>)
    ensures
        match r {
            Some(b) => b@ == initdata(blocks_for(app_args@, preopens@, wall_ns), mapped_initrd_size),
            None => true,
        },
        r is None <==> cmdline_text(app_args@).len() == 0 && mapped_initrd_size == 0
            && preopens@.len() == 0,
{
    let cmdline = join(app_args, " ");
    if cmdline.as_str().unicode_len() == 0 && mapped_initrd_size == 0 && preopens.len() == 0 {
        return None;
    }
    let mut buf: Vec<u8> = Vec::new();
    write_cmdline_mount_tlv(&mut buf, cmdline.as_str().as_bytes(), preopens, wall_ns);
    let ghost blocks = blocks_for(app_args@, preopens@, wall_ns);
    assert(buf@ =~= blocks);
    let used: usize = buf.len() % PAGE;
    if used <= PAGE - 8 {
        append_zeros(&mut buf, PAGE - 8 - used);
    } else {
        append_zeros(&mut buf, PAGE - used);
        append_zeros(&mut buf, PAGE - 8);
        assert(buf@ =~= padded(blocks, whole_pages(blocks.len() + 8) - 8));
    }
    assert(buf@ =~= padded(blocks, whole_pages(blocks.len() + 8) - 8));
    append_bytes(&mut buf, &u64_to_le_bytes(mapped_initrd_size));
    Some(buf)
}

/// Build init data with command line, mounts and mapped initrd size, for an
/// initrd that is mapped from a file. The size of the mapped file is stored in
/// the last 8 bytes of the page-aligned header.
pub fn build_cmdline_initdata(
    app_args: &[String],
    mapped_initrd_size: u64,
    preopens: &[Preopen],
) -> (r: Option<Vec<u8>>)
    ensures
        match r {
            Some(b) => exists|wall_ns: u64|
                b@ == #[trigger] initdata(
                    blocks_for(app_args@, preopens@, wall_ns),
                    mapped_initrd_size,
                ),
            None => true,
        },
        r is None <==> cmdline_text(app_args@).len() == 0 && mapped_initrd_size == 0
            && preopens@.len() == 0,
{
    let wall_ns: u64 = wall_clock_field(read_clock());
    build_cmdline_initdata_at(app_args, mapped_initrd_size, preopens, wall_ns)
}

/// Prepend application arguments and mounts as a header to the initrd, with the
/// given wall clock. Where there are neither, the initrd is left as it is.
pub fn prepend_cmdline_to_initrd_at(
    initrd: Option<&[u8]>,
    app_args: &[String],
    preopens: &[Preopen],
    wall_ns: u64,
) -> (r: Option<Vec<u8>>)
    ensures
        match (initrd, r) {
            (None, None) => cmdline_text(app_args@).len() == 0 && preopens@.len() == 0,
            (Some(_), None) => false,
            (_, Some(b)) => if cmdline_text(app_args@).len() == 0 && preopens@.len() == 0 {
                initrd matches Some(d) && b@ == d@
            } else {
                b@ == prefixed_initrd(
                    blocks_for(app_args@, preopens@, wall_ns),
                    initrd_bytes(initrd),
                )
            },
        },
{
    let cmdline = join(app_args, " ");
    let empty = cmdline.as_str().unicode_len() == 0 && preopens.len() == 0;
    if empty {
        return match initrd {
            None => None,
            Some(d) => {
                let mut copy: Vec<u8> = Vec::new();
                append_bytes(&mut copy, d);
                assert(copy@ =~= d@);
                Some(copy)
            },
        };
    }
    let mut buf: Vec<u8> = Vec::new();
    write_cmdline_mount_tlv(&mut buf, cmdline.as_str().as_bytes(), preopens, wall_ns);
    let ghost blocks = blocks_for(app_args@, preopens@, wall_ns);
    assert(buf@ =~= blocks);
    let used: usize = buf.len() % PAGE;
    if used > 0 {
        append_zeros(&mut buf, PAGE - used);
    }
    assert(buf@ =~= padded(blocks, whole_pages(blocks.len())));
    match initrd {
        Some(data) => {
            append_bytes(&mut buf, data);
        },
        None => {
            assert(buf@ =~= buf@ + Seq::<u8>::empty());
        },
    }
    Some(buf)
}

/// The bytes of an initrd.
pub open spec fn initrd_bytes(initrd: Option<&[u8]>) -> Option<Seq<u8>> {
    match initrd {
        Some(d) => Some(d@),
        None => None,
    }
}

/// Prepend application arguments and mounts as a header to the initrd.
pub fn prepend_cmdline_to_initrd(
    initrd: Option<&[u8]>,
    app_args: &[String],
    preopens: &[Preopen],
) -> (r: Option<Vec<u8>>)
    ensures
        match (initrd, r) {
            (None, None) => cmdline_text(app_args@).len() == 0 && preopens@.len() == 0,
            (Some(_), None) => false,
            (_, Some(b)) => if cmdline_text(app_args@).len() == 0 && preopens@.len() == 0 {
                initrd matches Some(d) && b@ == d@
            } else {
                exists|wall_ns: u64|
                    b@ == #[trigger] prefixed_initrd(
                        blocks_for(app_args@, preopens@, wall_ns),
                        initrd_bytes(initrd),
                    )
            },
        },
{
    let wall_ns: u64 = wall_clock_field(read_clock());
    prepend_cmdline_to_initrd_at(initrd, app_args, preopens, wall_ns)
}

// ---------------------------------------------------------------------------
// Reading
// ---------------------------------------------------------------------------

/// The number in the first four bytes.
pub open spec fn u32_at_start(b: Seq<u8>) -> int {
    spec_u32_from_le_bytes(b.take(4)) as int
}

/// `b` starts with this magic header and a number.
pub open spec fn starts_block(b: Seq<u8>, magic: Seq<u8>) -> bool {
    b.len() >= 12 && b.take(8) == magic
}

/// What a reader finds as the command line, and what follows it.
pub open spec fn read_cmdline(b: Seq<u8>) -> Option<(Seq<u8>, Seq<u8>)> {
    let n = u32_at_start(b.skip(8));
    if starts_block(b, CMDLINE_MAGIC@) && b.len() >= 13 + n && b[12 + n] == 0 {
        Some((b.subrange(12, 12 + n), b.skip(13 + n)))
    } else {
        None
    }
}

/// What a reader finds as `count` mount points, and what follows them.
pub open spec fn read_entries(b: Seq<u8>, count: int) -> Option<(Seq<Seq<u8>>, Seq<u8>)>
    decreases count,
{
    if count <= 0 {
        Some((Seq::empty(), b))
    } else {
        let n = u32_at_start(b);
        if b.len() >= 5 + n && b[4 + n] == 0 {
            match read_entries(b.skip(5 + n), count - 1) {
                Some((rest, after)) => Some((seq![b.subrange(4, 4 + n)] + rest, after)),
                None => None,
            }
        } else {
            None
        }
    }
}

/// What a reader finds as the mount points behind the command line, and what
/// follows them. Without a mount block there are none.
pub open spec fn read_mounts(b: Seq<u8>) -> Option<(Seq<Seq<u8>>, Seq<u8>)> {
    if starts_block(b, MOUNT_MAGIC@) {
        read_entries(b.skip(12), u32_at_start(b.skip(8)))
    } else {
        Some((Seq::empty(), b))
    }
}

/// What a reader finds as the wall clock.
pub open spec fn read_wall(b: Seq<u8>) -> Option<u64> {
    if starts_block(b, WALLTIME_MAGIC@) && u32_at_start(b.skip(8)) == 8 && b.len() >= 20 {
        Some(spec_u64_from_le_bytes(b.subrange(12, 20)))
    } else {
        None
    }
}

/// What a reader finds in a header: the command line, the mount points and the
/// wall clock.
pub open spec fn read_header(b: Seq<u8>) -> Option<(Seq<u8>, Seq<Seq<u8>>, Option<u64>)> {
    match read_cmdline(b) {
        Some((cmdline, rest)) => match read_mounts(rest) {
            Some((paths, last)) => Some((cmdline, paths, read_wall(last))),
            None => None,
        },
        None => None,
    }
}

/// Lengths that the four-byte length fields can hold.
pub open spec fn lengths_fit(cmdline: Seq<u8>, paths: Seq<Seq<u8>>) -> bool {
    &&& cmdline.len() <= u32::MAX
    &&& paths.len() <= u32::MAX
    &&& forall|i: int| 0 <= i < paths.len() ==> (#[trigger] paths[i]).len() <= u32::MAX
}

proof fn lemma_entries_front(paths: Seq<Seq<u8>>)
    requires
        paths.len() > 0,
    ensures
        mount_entries(paths) == mount_entry(paths[0]) + mount_entries(paths.drop_first()),
    decreases paths.len(),
{
    if paths.len() == 1 {
        assert(paths.drop_last() =~= Seq::empty());
        assert(paths.drop_first() =~= Seq::empty());
        assert(mount_entries(paths.drop_last()) == Seq::<u8>::empty());
        assert(mount_entries(paths.drop_first()) == Seq::<u8>::empty());
        assert(mount_entries(paths) =~= mount_entry(paths[0]) + mount_entries(paths.drop_first()));
    } else {
        lemma_entries_front(paths.drop_last());
        assert(paths.drop_last().drop_first() =~= paths.drop_first().drop_last());
        assert(mount_entries(paths) =~= mount_entry(paths[0]) + mount_entries(paths.drop_first()));
    }
}

proof fn lemma_read_entries(paths: Seq<Seq<u8>>, after: Seq<u8>)
    requires
        forall|i: int| 0 <= i < paths.len() ==> (#[trigger] paths[i]).len() <= u32::MAX,
    ensures
        read_entries(mount_entries(paths) + after, paths.len() as int) == Some((paths, after)),
    decreases paths.len(),
{
    lemma_auto_spec_u32_to_from_le_bytes();
    if paths.len() == 0 {
        assert(mount_entries(paths) + after =~= after);
        assert(paths =~= Seq::empty());
    } else {
        lemma_entries_front(paths);
        let first = paths[0];
        let rest = paths.drop_first();
        let b = mount_entries(paths) + after;
        assert forall|i: int| 0 <= i < rest.len() implies (#[trigger] rest[i]).len()
            <= u32::MAX by {
            assert(rest[i] == paths[i + 1]);
        }
        lemma_read_entries(rest, after);
        let n = first.len() as int;
        assert(b.take(4) =~= spec_u32_to_le_bytes(n as u32));
        assert(b.skip(5 + n) =~= mount_entries(rest) + after);
        assert(b.subrange(4, 4 + n) =~= first);
        assert(seq![first] + rest =~= paths);
    }
}

/// The command line is read back, whatever follows it.
proof fn lemma_read_cmdline(cmdline: Seq<u8>, after: Seq<u8>)
    requires
        cmdline.len() <= u32::MAX,
    ensures
        read_cmdline(cmdline_block(cmdline) + after) == Some((cmdline, after)),
{
    lemma_auto_spec_u32_to_from_le_bytes();
    let b = cmdline_block(cmdline) + after;
    let n = cmdline.len() as int;
    assert(b.take(8) =~= CMDLINE_MAGIC@);
    assert(b.skip(8).take(4) =~= spec_u32_to_le_bytes(n as u32));
    assert(b.subrange(12, 12 + n) =~= cmdline);
    assert(b[12 + n] == 0);
    assert(b.skip(13 + n) =~= after);
}

/// The mounts are read back, whatever follows them, as long as it is no further
/// mount block.
proof fn lemma_read_mounts(paths: Seq<Seq<u8>>, after: Seq<u8>)
    requires
        paths.len() <= u32::MAX,
        forall|i: int| 0 <= i < paths.len() ==> (#[trigger] paths[i]).len() <= u32::MAX,
        !starts_block(after, MOUNT_MAGIC@),
    ensures
        read_mounts(mount_block(paths) + after) == Some((paths, after)),
{
    lemma_auto_spec_u32_to_from_le_bytes();
    let m = mount_block(paths) + after;
    if paths.len() == 0 {
        assert(m =~= after);
        assert(paths =~= Seq::empty());
    } else {
        lemma_read_entries(paths, after);
        assert(m.take(8) =~= MOUNT_MAGIC@);
        assert(m.skip(8).take(4) =~= spec_u32_to_le_bytes(paths.len() as u32));
        assert(m.skip(12) =~= mount_entries(paths) + after);
    }
}

/// The wall clock is read back, whatever follows it, and its block is no mount
/// block.
proof fn lemma_read_wall(wall_ns: u64, after: Seq<u8>)
    ensures
        read_wall(wall_block(wall_ns) + after) == Some(wall_ns),
        !starts_block(wall_block(wall_ns) + after, MOUNT_MAGIC@),
{
    lemma_auto_spec_u32_to_from_le_bytes();
    lemma_auto_spec_u64_to_from_le_bytes();
    let b = wall_block(wall_ns) + after;
    assert(b.take(8) =~= WALLTIME_MAGIC@);
    assert(b.skip(8).take(4) =~= spec_u32_to_le_bytes(8));
    assert(b.subrange(12, 20) =~= spec_u64_to_le_bytes(wall_ns));
    assert(WALLTIME_MAGIC@[2] != MOUNT_MAGIC@[2]);
}

/// The blocks are read back, whatever follows them.
proof fn lemma_read_blocks(
    cmdline: Seq<u8>,
    paths: Seq<Seq<u8>>,
    wall_ns: u64,
    after: Seq<u8>,
)
    requires
        lengths_fit(cmdline, paths),
    ensures
        read_header(header_blocks(cmdline, paths, wall_ns) + after) == Some(
            (cmdline, paths, Some(wall_ns)),
        ),
{
    let last = wall_block(wall_ns) + after;
    let rest = mount_block(paths) + last;
    assert(header_blocks(cmdline, paths, wall_ns) + after =~= cmdline_block(cmdline) + rest);
    lemma_read_wall(wall_ns, after);
    lemma_read_mounts(paths, last);
    lemma_read_cmdline(cmdline, rest);
}

proof fn lemma_initdata_shape(blocks: Seq<u8>, size: u64)
    ensures
        initdata(blocks, size) == blocks + (zeros(whole_pages(blocks.len() + 8) - 8 - blocks.len())
            + spec_u64_to_le_bytes(size)),
        initdata(blocks, size).len() == whole_pages(blocks.len() + 8),
        initdata(blocks, size).skip(whole_pages(blocks.len() + 8) - 8) == spec_u64_to_le_bytes(size),
{
    lemma_auto_spec_u64_to_from_le_bytes();
    let n = whole_pages(blocks.len() + 8) - 8;
    let footer = spec_u64_to_le_bytes(size);
    assert(initdata(blocks, size) =~= blocks + (zeros(n - blocks.len()) + footer));
    assert(initdata(blocks, size).skip(n) =~= footer);
}

proof fn lemma_prefixed_shape(blocks: Seq<u8>, initrd: Seq<u8>)
    ensures
        prefixed_initrd(blocks, Some(initrd)) == blocks + (zeros(
            whole_pages(blocks.len()) - blocks.len(),
        ) + initrd),
        prefixed_initrd(blocks, Some(initrd)).skip(whole_pages(blocks.len())) == initrd,
        whole_pages(blocks.len()) % (PAGE as int) == 0,
{
    let n = whole_pages(blocks.len());
    assert(prefixed_initrd(blocks, Some(initrd)) =~= blocks + (zeros(n - blocks.len()) + initrd));
    assert(prefixed_initrd(blocks, Some(initrd)).skip(n) =~= initrd);
}

// ---------------------------------------------------------------------------
// Laws
// ---------------------------------------------------------------------------

/// Init data fills whole pages and ends with the size of the mapped initrd, which
/// stands behind the whole of the blocks.
pub proof fn initdata_ends_with_the_mapped_size(blocks: Seq<u8>, size: u64)
    ensures
        ({
            let b = initdata(blocks, size);
            &&& b.len() % (PAGE as nat) == 0
            &&& b.len() >= blocks.len() + 8
            &&& b.take(blocks.len() as int) == blocks
            &&& spec_u64_from_le_bytes(b.skip(b.len() - 8)) == size
        }),
{
    lemma_auto_spec_u64_to_from_le_bytes();
    lemma_initdata_shape(blocks, size);
    assert(initdata(blocks, size).take(blocks.len() as int) =~= blocks);
}

/// A reader of init data finds the command line, the mounts and the wall clock that
/// were written, whatever the sizes of the blocks.
pub proof fn initdata_gives_back_everything(
    cmdline: Seq<u8>,
    paths: Seq<Seq<u8>>,
    wall_ns: u64,
    size: u64,
)
    requires
        lengths_fit(cmdline, paths),
    ensures
        read_header(initdata(header_blocks(cmdline, paths, wall_ns), size)) == Some(
            (cmdline, paths, Some(wall_ns)),
        ),
{
    let blocks = header_blocks(cmdline, paths, wall_ns);
    lemma_initdata_shape(blocks, size);
    let after = zeros(whole_pages(blocks.len() + 8) - 8 - blocks.len()) + spec_u64_to_le_bytes(size);
    lemma_read_blocks(cmdline, paths, wall_ns, after);
}

/// A reader of an initrd with a header finds the command line, the mounts and the
/// wall clock, and the initrd itself at the next page boundary.
pub proof fn a_prefixed_initrd_gives_back_everything(
    cmdline: Seq<u8>,
    paths: Seq<Seq<u8>>,
    wall_ns: u64,
    initrd: Seq<u8>,
)
    requires
        lengths_fit(cmdline, paths),
    ensures
        ({
            let blocks = header_blocks(cmdline, paths, wall_ns);
            let b = prefixed_initrd(blocks, Some(initrd));
            &&& read_header(b) == Some((cmdline, paths, Some(wall_ns)))
            &&& b.skip(whole_pages(blocks.len())) == initrd
            &&& whole_pages(blocks.len()) % (PAGE as int) == 0
        }),
{
    let blocks = header_blocks(cmdline, paths, wall_ns);
    lemma_prefixed_shape(blocks, initrd);
    let after = zeros(whole_pages(blocks.len()) - blocks.len()) + initrd;
    lemma_read_blocks(cmdline, paths, wall_ns, after);
}

/// The header is laid out block by block: the magic of the command line, its length,
/// the command line and a zero; the magic of the mounts, their number and the mounts,
/// where there are any; the magic of the wall clock, its length and the clock.
pub proof fn the_header_is_laid_out_in_blocks(
    cmdline: Seq<u8>,
    paths: Seq<Seq<u8>>,
    wall_ns: u64,
)
    ensures
        ({
            let b = header_blocks(cmdline, paths, wall_ns);
            let n = 13 + cmdline.len() as int;
            let w = b.len() - 20;
            &&& b.take(n) == seq![72u8, 76, 67, 77, 68, 76, 78, 0] + spec_u32_to_le_bytes(
                cmdline.len() as u32,
            ) + cmdline + seq![0u8]
            &&& b.skip(w) == seq![72u8, 76, 87, 65, 76, 76, 48, 0] + spec_u32_to_le_bytes(8)
                + spec_u64_to_le_bytes(wall_ns)
            &&& paths.len() == 0 ==> w == n
            &&& paths.len() > 0 ==> b.subrange(n, w) == seq![72u8, 76, 72, 83, 77, 78, 84, 0]
                + spec_u32_to_le_bytes(paths.len() as u32) + mount_entries(paths)
        }),
{
    lemma_auto_spec_u32_to_from_le_bytes();
    lemma_auto_spec_u64_to_from_le_bytes();
    let b = header_blocks(cmdline, paths, wall_ns);
    let n = 13 + cmdline.len() as int;
    let w = b.len() - 20;
    assert(CMDLINE_MAGIC@ =~= seq![72u8, 76, 67, 77, 68, 76, 78, 0]);
    assert(MOUNT_MAGIC@ =~= seq![72u8, 76, 72, 83, 77, 78, 84, 0]);
    assert(WALLTIME_MAGIC@ =~= seq![72u8, 76, 87, 65, 76, 76, 48, 0]);
    assert(b.take(n) =~= cmdline_block(cmdline));
    assert(b.skip(w) =~= wall_block(wall_ns));
    assert(b.subrange(n, w) =~= mount_block(paths));
}

/// The mounts follow one another, each with its length before it and a zero behind it.
pub proof fn mounts_follow_one_another(a: Seq<Seq<u8>>, b: Seq<Seq<u8>>, path: Seq<u8>)
    ensures
        mount_entries(a + b) == mount_entries(a) + mount_entries(b),
        mount_entries(seq![path]) == spec_u32_to_le_bytes(path.len() as u32) + path + seq![0u8],
    decreases b.len(),
{
    let one = seq![path];
    assert(one.drop_last() =~= Seq::empty());
    assert(mount_entries(one.drop_last()) =~= Seq::<u8>::empty());
    assert(mount_entries(one) =~= spec_u32_to_le_bytes(path.len() as u32) + path + seq![0u8]);
    if b.len() == 0 {
        assert(a + b =~= a);
        assert(mount_entries(b) =~= Seq::<u8>::empty());
        assert(mount_entries(a) + mount_entries(b) =~= mount_entries(a));
    } else {
        assert((a + b).drop_last() =~= a + b.drop_last());
        mounts_follow_one_another(a, b.drop_last(), path);
        assert(mount_entries(a + b) =~= mount_entries(a) + mount_entries(b));
    }
}

/// What a reader finds in the init data, and in front of an initrd: the arguments with
/// a space between each two, the guest path of every mount in its place, and the wall
/// clock.
pub proof fn arguments_and_mounts_are_read_back(
    args: Seq<String>,
    preopens: Seq<Preopen>,
    wall_ns: u64,
    size: u64,
    initrd: Option<Seq<u8>>,
) -> (paths: Seq<Seq<u8>>)
    requires
        lengths_fit(encode_utf8(text::joined(text::texts(args), seq![' '])), guest_paths(preopens)),
    ensures
        ({
            let found = Some(
                (encode_utf8(text::joined(text::texts(args), seq![' '])), paths, Some(wall_ns)),
            );
            let blocks = blocks_for(args, preopens, wall_ns);
            &&& read_header(initdata(blocks, size)) == found
            &&& read_header(prefixed_initrd(blocks, initrd)) == found
        }),
        paths.len() == preopens.len(),
        forall|i: int|
            0 <= i < preopens.len() ==> #[trigger] paths[i] == encode_utf8(preopens[i].guest_path@),
{
    reveal_strlit(" ");
    assert(" "@ =~= seq![' ']);
    let cmdline = encode_utf8(text::joined(text::texts(args), seq![' ']));
    let paths = guest_paths(preopens);
    let blocks = blocks_for(args, preopens, wall_ns);
    initdata_gives_back_everything(cmdline, paths, wall_ns, size);
    let data = match initrd {
        Some(d) => d,
        None => Seq::empty(),
    };
    assert(prefixed_initrd(blocks, initrd) =~= prefixed_initrd(blocks, Some(data)));
    a_prefixed_initrd_gives_back_everything(cmdline, paths, wall_ns, data);
    paths
}

/// There is no command line where there are no arguments, or only one that is empty,
/// and in no other case.
pub proof fn arguments_make_a_command_line(args: Seq<String>)
    ensures
        cmdline_text(args).len() == 0 <==> args.len() == 0 || (args.len() == 1 && args[0]@.len()
            == 0),
{
    reveal_strlit(" ");
    let list = text::texts(args);
    if args.len() >= 2 {
        let front = list.drop_last();
        let back = seq![list.last()];
        assert(list =~= front + back);
        text::joining_goes_on_behind_the_separator(front, back, " "@);
    }
}

/// The header takes as many whole pages as it needs and no more, is filled up with
/// zeros, and stands whole before what follows it: the initrd on the next page, or the
/// size of the mapped file in the last eight bytes.
pub proof fn the_header_fills_whole_pages(
    blocks: Seq<u8>,
    size: u64,
    initrd: Seq<u8>,
) -> (n: int)
    ensures
        ({
            let b = prefixed_initrd(blocks, Some(initrd));
            &&& n % 4096 == 0
            &&& blocks.len() <= n < blocks.len() + 4096
            &&& b.take(blocks.len() as int) == blocks
            &&& forall|i: int| blocks.len() <= i < n ==> b[i] == 0
            &&& b.skip(n) == initrd
            &&& prefixed_initrd(blocks, None) == b.take(n)
        }),
        ({
            let b = initdata(blocks, size);
            &&& b.len() % 4096 == 0
            &&& blocks.len() + 8 <= b.len() < blocks.len() + 8 + 4096
            &&& b.take(blocks.len() as int) == blocks
            &&& forall|i: int| blocks.len() <= i < b.len() - 8 ==> b[i] == 0
            &&& b.skip(b.len() - 8) == spec_u64_to_le_bytes(size)
        }),
{
    lemma_auto_spec_u64_to_from_le_bytes();
    lemma_initdata_shape(blocks, size);
    lemma_prefixed_shape(blocks, initrd);
    let n = whole_pages(blocks.len());
    let b = prefixed_initrd(blocks, Some(initrd));
    assert(b.take(blocks.len() as int) =~= blocks);
    assert(b.skip(n) =~= initrd);
    assert(prefixed_initrd(blocks, None) =~= b.take(n));
    assert(initdata(blocks, size).take(blocks.len() as int) =~= blocks);
    n
}

/// A clock reading that fits is written as it is, and 0 where there is none.
pub proof fn a_clock_reading_is_kept(ns: u128)
    ensures
        ns <= u64::MAX ==> clock_field(Some(ns)) == ns,
        clock_field(Some(ns)) == ns % 0x1_0000_0000_0000_0000,
        clock_field(None) == 0,
{
    assert((ns as u64) == ns % 0x1_0000_0000_0000_0000) by (bit_vector);
}

} // verus!
