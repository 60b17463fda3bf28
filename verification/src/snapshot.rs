//! Snapshot sparsification: which parts of a snapshot file can be punched out.
//!
//! A snapshot is a header of one page followed by a dense memory image in which
//! most pages are all zeros. A hole reads back as zeros and takes no disk space.

use crate::text;
use crate::text::{decimal_of, owned};
use vstd::prelude::*;
use vstd::string::*;

verus! {

/// The length of a page.
pub const PAGE: usize = 4096;

/// The length of the header, which is never punched.
pub const HEADER: usize = 4096;

/// A whole page of zeros stands in `image` at `offset`.
pub open spec fn zero_page_at(image: Seq<u8>, offset: int) -> bool {
    &&& 0 <= offset
    &&& offset + PAGE <= image.len()
    &&& forall|i: int| offset <= i < offset + PAGE ==> image[i] == 0
}

/// `offset` is where a page starts that can be punched out: a page of zeros
/// behind the header.
pub open spec fn is_hole(image: Seq<u8>, offset: int) -> bool {
    &&& offset >= HEADER
    &&& offset % (PAGE as int) == 0
    &&& zero_page_at(image, offset)
}

/// Whether the page at `offset` is all zeros.
fn is_zero_page(image: &[u8], offset: usize) -> (r: bool)
    requires
        offset + PAGE <= image@.len(),
    ensures
        r == zero_page_at(image@, offset as int),
{
    let n: usize = image.len();
    for i in offset..offset + PAGE
        invariant
            n == image@.len(),
            offset + PAGE <= n,
            forall|j: int| offset <= j < i ==> image@[j] == 0,
    {
        if image[i] != 0 {
            return false;
        }
    }
    true
}

/// The pages that can be punched out, by their offsets, in ascending order.
pub fn zero_pages(image: &[u8]) -> (r: Vec<usize>)
    ensures
        forall|o: int| is_hole(image@, o) <==> exists|k: int| 0 <= k < r@.len() && r@[k] == o,
        forall|i: int, j: int| 0 <= i < j < r@.len() ==> r@[i] < r@[j],
{
    let mut out: Vec<usize> = Vec::new();
    let n: usize = image.len();
    let mut offset: usize = HEADER;
    while offset <= n && n - offset >= PAGE
        invariant
            n == image@.len(),
            HEADER <= offset,
            offset as int % (PAGE as int) == 0,
            forall|k: int|
                0 <= k < out@.len() ==> is_hole(image@, #[trigger] out@[k] as int) && out@[k] < offset,
            forall|o: int|
                o < offset && is_hole(image@, o) ==> exists|k: int|
                    0 <= k < out@.len() && out@[k] == o,
            forall|i: int, j: int| 0 <= i < j < out@.len() ==> out@[i] < out@[j],
        decreases n + PAGE - offset,
    {
        let ghost before = out@;
        let zero = is_zero_page(image, offset);
        if zero {
            out.push(offset);
        }
        proof {
            assert forall|o: int| o < offset + PAGE && is_hole(image@, o) implies exists|k: int|
                0 <= k < out@.len() && out@[k] == o by {
                if o < offset {
                    let k = choose|k: int| 0 <= k < before.len() && before[k] == o;
                    assert(out@[k] == o);
                } else {
                    assert(o == offset);
                    assert(out@[before.len() as int] == o);
                }
            }
        }
        offset += PAGE;
    }
    proof {
        assert forall|o: int| is_hole(image@, o) <==> exists|k: int|
            0 <= k < out@.len() && out@[k] == o by {
            if is_hole(image@, o) {
                assert(o < offset);
            }
        }
    }
    out
}

/// `(start, end)` is a run of pages that can be punched out, as long as it can be:
/// the page before it and the page behind it cannot.
pub open spec fn is_run(image: Seq<u8>, start: int, end: int) -> bool {
    &&& start < end
    &&& start % (PAGE as int) == 0
    &&& end % (PAGE as int) == 0
    &&& forall|o: int| start <= o < end && o % (PAGE as int) == 0 ==> #[trigger] is_hole(image, o)
    &&& !is_hole(image, start - PAGE)
    &&& !is_hole(image, end)
}

/// The pages that can be punched out, coalesced into runs, in ascending order.
pub fn zero_ranges(image: &[u8]) -> (r: Vec<(usize, usize)>)
    ensures
        forall|k: int|
            0 <= k < r@.len() ==> is_run(image@, (#[trigger] r@[k]).0 as int, r@[k].1 as int),
        forall|o: int| #[trigger]
            is_hole(image@, o) ==> exists|k: int|
                0 <= k < r@.len() && (#[trigger] r@[k]).0 <= o < r@[k].1,
        forall|i: int, j: int|
            0 <= i < j < r@.len() ==> (#[trigger] r@[i]).1 < (#[trigger] r@[j]).0,
{
    let mut out: Vec<(usize, usize)> = Vec::new();
    let n: usize = image.len();
    let mut offset: usize = HEADER;
    while offset <= n && n - offset >= PAGE
        invariant
            n == image@.len(),
            HEADER <= offset,
            offset as int % (PAGE as int) == 0,
            !is_hole(image@, offset - PAGE),
            forall|k: int|
                0 <= k < out@.len() ==> is_run(
                    image@,
                    (#[trigger] out@[k]).0 as int,
                    out@[k].1 as int,
                ) && out@[k].1 < offset,
            forall|o: int| #[trigger]
                is_hole(image@, o) && o < offset ==> exists|k: int|
                    0 <= k < out@.len() && (#[trigger] out@[k]).0 <= o < out@[k].1,
            forall|i: int, j: int|
                0 <= i < j < out@.len() ==> (#[trigger] out@[i]).1 < (#[trigger] out@[j]).0,
        decreases n + PAGE - offset,
    {
        let ghost before = out@;
        let start: usize = offset;
        while offset <= n && n - offset >= PAGE && is_zero_page(image, offset)
            invariant
                n == image@.len(),
                HEADER <= start <= offset,
                offset <= n,
                offset as int % (PAGE as int) == 0,
                start as int % (PAGE as int) == 0,
                forall|o: int|
                    start <= o < offset && o % (PAGE as int) == 0 ==> #[trigger] is_hole(image@, o),
            decreases n + PAGE - offset,
        {
            proof {
                assert(is_hole(image@, offset as int));
                assert forall|o: int| start <= o < offset + PAGE && o % (PAGE as int)
                    == 0 implies #[trigger] is_hole(image@, o) by {
                    if o >= offset {
                        assert(o == offset);
                    }
                }
            }
            offset += PAGE;
        }
        assert(!is_hole(image@, offset as int));
        if start < offset {
            assert(is_hole(image@, start as int));
            out.push((start, offset));
            assert(is_run(image@, start as int, offset as int));
        }
        proof {
            assert forall|o: int| #[trigger] is_hole(image@, o) && o < offset
                + PAGE implies exists|k: int|
                0 <= k < out@.len() && (#[trigger] out@[k]).0 <= o < out@[k].1 by {
                if o < start {
                    let k = choose|k: int|
                        0 <= k < before.len() && (#[trigger] before[k]).0 <= o < before[k].1;
                    assert(out@[k] == before[k]);
                } else {
                    if o >= offset {
                        assert(o == offset);
                    }
                    assert(start < offset);
                    let last = before.len() as int;
                    assert(out@[last] == (start, offset));
                    assert(out@[last].0 <= o < out@[last].1);
                }
            }
        }
        if offset > n || n - offset < PAGE {
            proof {
                assert forall|o: int| #[trigger] is_hole(image@, o) implies exists|k: int|
                    0 <= k < out@.len() && (#[trigger] out@[k]).0 <= o < out@[k].1 by {
                    assert(o < offset + PAGE);
                }
            }
            return out;
        }
        offset += PAGE;
    }
    out
}

// ---------------------------------------------------------------------------
// The report
// ---------------------------------------------------------------------------

/// What a file of `len` bytes takes on disk once `punched` pages are punched out,
/// in MiB.
pub open spec fn disk_mib(len: int, punched: int) -> int {
    (len - punched * PAGE) / 1024 / 1024
}

/// The line that reports what sparsifying a file of `len` bytes gave. There is
/// none where nothing was punched out.
pub fn sparsify_report(len: u64, punched: u64) -> (r: Option<String>)
    requires
        punched * PAGE <= len,
    ensures
        match r {
            Some(m) => punched > 0 && m@ == "  sparsified: "@ + text::decimal(
                disk_mib(len as int, punched as int) as nat,
            ) + " MiB on disk (punched "@ + text::decimal(punched as nat) + " zero pages)"@,
            None => punched == 0,
        },
{
    if punched == 0 {
        return None;
    }
    let mib: u64 = (len - punched * (PAGE as u64)) / 1024 / 1024;
    let mut out = owned("  sparsified: ");
    out.append(decimal_of(mib).as_str());
    out.append(" MiB on disk (punched ");
    out.append(decimal_of(punched).as_str());
    out.append(" zero pages)");
    Some(out)
}

// ---------------------------------------------------------------------------
// Laws
// ---------------------------------------------------------------------------

/// The bytes of `image` as they read once the page at `offset` is punched out.
pub open spec fn punched_at(image: Seq<u8>, offset: int) -> Seq<u8> {
    Seq::new(
        image.len(),
        |i: int|
            if offset <= i < offset + PAGE {
                0u8
            } else {
                image[i]
            },
    )
}

/// The bytes of `image` once all these pages are punched out.
pub open spec fn punched_all(image: Seq<u8>, offsets: Seq<usize>) -> Seq<u8>
    decreases offsets.len(),
{
    if offsets.len() == 0 {
        image
    } else {
        punched_at(punched_all(image, offsets.drop_last()), offsets.last() as int)
    }
}

/// Punching out pages of zeros loses nothing: the file reads as before.
pub proof fn punching_zero_pages_keeps_the_contents(image: Seq<u8>, offsets: Seq<usize>)
    requires
        forall|k: int| 0 <= k < offsets.len() ==> is_hole(image, #[trigger] offsets[k] as int),
    ensures
        punched_all(image, offsets) == image,
    decreases offsets.len(),
{
    if offsets.len() > 0 {
        let front = offsets.drop_last();
        assert forall|k: int| 0 <= k < front.len() implies is_hole(
            image,
            #[trigger] front[k] as int,
        ) by {
            assert(front[k] == offsets[k]);
        }
        punching_zero_pages_keeps_the_contents(image, front);
        assert(is_hole(image, offsets[offsets.len() - 1] as int));
        assert(punched_at(image, offsets.last() as int) =~= image);
    }
}

/// The header is never touched: every page that can be punched out lies behind it,
/// and within the file.
pub proof fn the_header_is_never_punched(image: Seq<u8>, offset: int)
    requires
        is_hole(image, offset),
    ensures
        offset >= HEADER,
        offset + PAGE <= image.len(),
{
}

/// Punching out runs is punching out single pages: every page of a run can be
/// punched out by itself.
pub proof fn runs_and_pages_agree(image: Seq<u8>, start: int, end: int, offset: int)
    requires
        is_run(image, start, end),
        offset % (PAGE as int) == 0,
        start <= offset < end,
    ensures
        is_hole(image, offset),
{
}

/// Every page of zeros behind the first page of the file can be punched out, and
/// nothing else can.
pub proof fn every_zero_page_can_be_punched(image: Seq<u8>, offset: int)
    ensures
        is_hole(image, offset) <==> {
            &&& offset >= 4096
            &&& offset % 4096 == 0
            &&& offset + 4096 <= image.len()
            &&& forall|i: int| offset <= i < offset + 4096 ==> image[i] == 0
        },
{
}

/// A run is zeros from its start to its end, lies behind the first page and in the
/// file, is whole pages, and could be made no longer.
pub proof fn a_run_is_zeros_and_as_long_as_can_be(image: Seq<u8>, start: int, end: int)
    requires
        is_run(image, start, end),
    ensures
        4096 <= start < end <= image.len(),
        start % 4096 == 0,
        end % 4096 == 0,
        forall|i: int| start <= i < end ==> image[i] == 0,
        start >= 8192 ==> exists|i: int| start - 4096 <= i < start && image[i] != 0,
        end + 4096 <= image.len() ==> exists|i: int| end <= i < end + 4096 && image[i] != 0,
{
    assert(is_hole(image, start));
    assert(is_hole(image, end - 4096));
    assert forall|i: int| start <= i < end implies image[i] == 0 by {
        let o = i - i % 4096;
        assert(is_hole(image, o));
    }
    every_zero_page_can_be_punched(image, start - 4096);
    every_zero_page_can_be_punched(image, end);
}

/// What a file takes on disk is its length without the pages that are punched out, in
/// whole MiB.
pub proof fn punched_pages_take_no_space(len: int, punched: int)
    requires
        0 <= punched,
        punched * 4096 <= len,
    ensures
        disk_mib(len, punched) * 1048576 <= len - punched * 4096 < (disk_mib(len, punched) + 1)
            * 1048576,
{
}

} // verus!
