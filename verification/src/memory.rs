//! Memory sizes: the textual form that the command line takes, and the sizes
//! that a virtual machine is configured with.

use crate::text;
use crate::text::{chars_of, owned, parse_u64, trim_bounds, IntError};
use vstd::prelude::*;
use vstd::string::*;

verus! {

/// Bytes in a guest page.
pub const PAGE_SIZE: u64 = 4096;

/// Heap size of a machine that is not configured otherwise.
pub const DEFAULT_HEAP_SIZE: u64 = 536_870_912;

/// Stack size of a machine that is not configured otherwise.
pub const DEFAULT_STACK_SIZE: u64 = 8_388_608;

/// Least scratch memory beside the page tables.
pub const MIN_SCRATCH_BASE: u64 = 67_108_864;

/// Memory that one page of page tables maps.
pub const BYTES_PER_TABLE: u64 = 2_097_152;

// ---------------------------------------------------------------------------
// Configuration
// ---------------------------------------------------------------------------

/// Configuration for a Unikraft VM.
#[derive(Clone, Copy, Debug, PartialEq, Eq, Structural)]
pub struct VmConfig {
    pub heap_size: u64,
    pub stack_size: u64,
}

/// The sizes handed to the hypervisor.
#[derive(Clone, Copy, Debug, PartialEq, Eq, Structural)]
pub struct SandboxSizes {
    pub heap_size: u64,
    pub scratch_size: u64,
}

/// The least multiple of `unit` that is not below `n`.
pub open spec fn rounded_up(n: int, unit: int) -> int
    recommends
        unit > 0,
{
    if n % unit == 0 {
        n
    } else {
        n + unit - n % unit
    }
}

/// Scratch memory for a heap: page tables for it, and a base of a quarter of
/// the heap but not less than `MIN_SCRATCH_BASE`, in whole pages.
pub open spec fn scratch_size(heap: int) -> int {
    let tables = (heap / (BYTES_PER_TABLE as int) + 16) * PAGE_SIZE;
    let base = if heap / 4 >= MIN_SCRATCH_BASE {
        heap / 4
    } else {
        MIN_SCRATCH_BASE as int
    };
    rounded_up(tables + base, PAGE_SIZE as int)
}

impl Default for VmConfig {
    fn default() -> (r: Self)
        ensures
            r.heap_size == DEFAULT_HEAP_SIZE,
            r.stack_size == DEFAULT_STACK_SIZE,
    {
        VmConfig { heap_size: DEFAULT_HEAP_SIZE, stack_size: DEFAULT_STACK_SIZE }
    }
}

impl VmConfig {
    /// Set the guest heap size in bytes. Chainable setter.
    pub fn with_heap_size(self, size: u64) -> (r: Self)
        ensures
            r == (VmConfig { heap_size: size, stack_size: self.stack_size }),
    {
        VmConfig { heap_size: size, stack_size: self.stack_size }
    }

    /// Set the guest stack size in bytes. Chainable setter.
    pub fn with_stack_size(self, size: u64) -> (r: Self)
        ensures
            r == (VmConfig { heap_size: self.heap_size, stack_size: size }),
    {
        VmConfig { heap_size: self.heap_size, stack_size: size }
    }

    /// The sizes for the hypervisor.
    ///
    /// Scratch holds page tables and the copies of writable pages that are
    /// touched at run time. Large guests load binaries of more than 100 MB
    /// whose segments are copied page by page, hence a quarter of the heap.
    pub fn sandbox_config(&self) -> (r: SandboxSizes)
        ensures
            r.heap_size == self.heap_size,
            r.scratch_size == scratch_size(self.heap_size as int),
    {
        let tables: u64 = (self.heap_size / BYTES_PER_TABLE + 16) * PAGE_SIZE;
        let quarter: u64 = self.heap_size / 4;
        let base: u64 = if quarter >= MIN_SCRATCH_BASE {
            quarter
        } else {
            MIN_SCRATCH_BASE
        };
        let sum: u64 = tables + base;
        let over: u64 = sum % PAGE_SIZE;
        let scratch: u64 = if over == 0 {
            sum
        } else {
            sum + PAGE_SIZE - over
        };
        SandboxSizes { heap_size: self.heap_size, scratch_size: scratch }
    }
}

/// Scratch memory is whole pages, at least the least base, and never shrinks
/// as the heap grows.
pub proof fn scratch_size_is_page_aligned_and_monotone(small: u64, large: u64)
    requires
        small <= large,
    ensures
        scratch_size(small as int) % (PAGE_SIZE as int) == 0,
        scratch_size(small as int) >= MIN_SCRATCH_BASE,
        scratch_size(small as int) <= scratch_size(large as int),
{
}

// ---------------------------------------------------------------------------
// Sizes as text
// ---------------------------------------------------------------------------

/// Why a text is not a memory size.
#[derive(Clone, Copy, Debug, PartialEq, Eq, Structural)]
pub enum MemoryError {
    /// The number before a unit is malformed.
    BadNumber(IntError),
    /// There is no unit, and the whole text is not a number.
    BadFormat(IntError),
    /// The size does not fit a `u64`.
    TooLarge,
}

impl MemoryError {
    /// The wording for this error.
    pub open spec fn wording(self) -> Seq<char> {
        match self {
            MemoryError::BadNumber(e) => e.wording(),
            MemoryError::BadFormat(e) => "Invalid memory format: "@ + e.wording(),
            MemoryError::TooLarge => "memory size too large"@,
        }
    }

    /// The wording for this error.
    pub fn message(&self) -> (r: String)
        ensures
            r@ == self.wording(),
    {
        match self {
            MemoryError::BadNumber(e) => e.message(),
            MemoryError::BadFormat(e) => {
                let mut out = owned("Invalid memory format: ");
                out.append(e.message().as_str());
                out
            },
            MemoryError::TooLarge => owned("memory size too large"),
        }
    }
}

/// How many bytes the unit at the end of `s` stands for, and how long the unit
/// is. Two-letter units are powers of 1024, one-letter units powers of 1000.
pub open spec fn memory_unit(s: Seq<char>) -> (nat, nat) {
    if s.len() >= 2 && s.last() == 'i' && s[s.len() - 2] == 'G' {
        (1_073_741_824, 2)
    } else if s.len() >= 2 && s.last() == 'i' && s[s.len() - 2] == 'M' {
        (1_048_576, 2)
    } else if s.len() >= 2 && s.last() == 'i' && s[s.len() - 2] == 'K' {
        (1024, 2)
    } else if s.len() >= 1 && s.last() == 'G' {
        (1_000_000_000, 1)
    } else if s.len() >= 1 && s.last() == 'M' {
        (1_000_000, 1)
    } else if s.len() >= 1 && s.last() == 'K' {
        (1000, 1)
    } else {
        (1, 0)
    }
}

/// The number of bytes that a memory size such as `512Mi` or `1G` stands for,
/// white space around it aside. The number may exceed a `u64`.
pub open spec fn memory_bytes(s: Seq<char>) -> Result<nat, MemoryError> {
    let t = text::trim(s);
    let (scale, width) = memory_unit(t);
    match text::u64_value(t.take(t.len() - width)) {
        Ok(n) => Ok(n * scale),
        Err(e) => if width == 0 {
            Err(MemoryError::BadFormat(e))
        } else {
            Err(MemoryError::BadNumber(e))
        },
    }
}

/// The number of bytes that a memory size stands for, however large.
fn memory_size(mem_str: &str) -> (r: Result<u128, MemoryError>)
    ensures
        match r {
            Ok(n) => memory_bytes(mem_str@) == Ok::<nat, MemoryError>(n as nat),
            Err(e) => memory_bytes(mem_str@) == Err::<nat, MemoryError>(e),
        },
{
    let cs = chars_of(mem_str);
    let (a, b) = trim_bounds(&cs, 0, cs.len());
    let ghost t = text::trim(mem_str@);
    assert(cs@.subrange(0, cs@.len() as int) =~= mem_str@);
    assert(t == cs@.subrange(a as int, b as int));
    let len: usize = b - a;
    let binary: bool = len >= 2 && cs[b - 1] == 'i';
    let (scale, width): (u64, usize) = if binary && cs[b - 2] == 'G' {
        (1_073_741_824, 2)
    } else if binary && cs[b - 2] == 'M' {
        (1_048_576, 2)
    } else if binary && cs[b - 2] == 'K' {
        (1024, 2)
    } else if len >= 1 && cs[b - 1] == 'G' {
        (1_000_000_000, 1)
    } else if len >= 1 && cs[b - 1] == 'M' {
        (1_000_000, 1)
    } else if len >= 1 && cs[b - 1] == 'K' {
        (1000, 1)
    } else {
        (1, 0)
    };
    assert((scale as nat, width as nat) == memory_unit(t));
    assert(cs@.subrange(a as int, b - width) =~= t.take(t.len() - width));
    match parse_u64(&cs, a, b - width) {
        Ok(n) => {
            assert(n * scale <= u64::MAX * 1_073_741_824) by (nonlinear_arith)
                requires
                    0 <= n <= u64::MAX,
                    0 <= scale <= 1_073_741_824,
            ;
            Ok((n as u128) * (scale as u128))
        },
        Err(e) => if width == 0 {
            Err(MemoryError::BadFormat(e))
        } else {
            Err(MemoryError::BadNumber(e))
        },
    }
}

/// Parse memory size string (e.g., "512Mi", "1Gi") into bytes. A size that does not
/// fit a `u64` is an error, never a smaller size.
pub fn parse_memory(mem_str: &str) -> (r: Result<u64, MemoryError>)
    ensures
        match (memory_bytes(mem_str@), r) {
            (Ok(n), Ok(m)) => n == m,
            (Ok(n), Err(e)) => n > u64::MAX && e == MemoryError::TooLarge,
            (Err(e), Err(f)) => e == f,
            (Err(_), Ok(_)) => false,
        },
{
    match memory_size(mem_str) {
        Ok(n) => if n <= u64::MAX as u128 {
            Ok(n as u64)
        } else {
            Err(MemoryError::TooLarge)
        },
        Err(e) => Err(e),
    }
}

// ---------------------------------------------------------------------------
// Laws
// ---------------------------------------------------------------------------

/// A number of bytes written in decimal, without a unit, is read back as it is.
pub proof fn a_plain_number_is_read_back(n: u64)
    ensures
        memory_bytes(text::decimal(n as nat)) == Ok::<nat, MemoryError>(n as nat),
{
    let s = text::decimal(n as nat);
    text::lemma_decimal_digits(n as nat);
    text::lemma_decimal_value(n);
    assert('0' <= s[0] <= '9' && '0' <= s[s.len() - 1] <= '9');
    assert(text::trim(s) == s);
    assert(memory_unit(s) == (1nat, 0nat));
    assert(s.take(s.len() as int) =~= s);
    lemma_once(s);
}

/// White space around a size counts for nothing: the size is the same, or it is none
/// for the same reason.
pub proof fn white_space_around_a_size_counts_for_nothing(
    before: Seq<char>,
    s: Seq<char>,
    after: Seq<char>,
)
    requires
        text::all_white(before),
        text::all_white(after),
    ensures
        memory_bytes(before + s + after) == memory_bytes(s),
{
    text::lemma_trim_around(before, s, after);
}

/// A unit, and how many bytes it stands for.
pub open spec fn is_unit(unit: Seq<char>, scale: nat) -> bool {
    ||| unit == seq!['K', 'i'] && scale == 1024
    ||| unit == seq!['M', 'i'] && scale == 1024 * 1024
    ||| unit == seq!['G', 'i'] && scale == 1024 * 1024 * 1024
    ||| unit == seq!['K'] && scale == 1000
    ||| unit == seq!['M'] && scale == 1000 * 1000
    ||| unit == seq!['G'] && scale == 1000 * 1000 * 1000
}

/// A number before a unit counts as many times as the unit stands for; where there is
/// no number before it, that is the error.
pub proof fn a_number_counts_by_its_unit(s: Seq<char>, unit: Seq<char>, scale: nat)
    requires
        is_unit(unit, scale),
        s.len() == 0 || !text::is_white(s[0]),
    ensures
        memory_bytes(s + unit) == match text::u64_value(s) {
            Ok(n) => Ok::<nat, MemoryError>(n * scale),
            Err(e) => Err(MemoryError::BadNumber(e)),
        },
{
    let whole = s + unit;
    let n = unit.len() as int;
    assert(whole.last() == unit[n - 1]);
    assert(whole[whole.len() - 2] == if n == 2 {
        unit[0]
    } else if s.len() > 0 {
        s[s.len() - 1]
    } else {
        whole[whole.len() - 2]
    });
    assert(text::trim(whole) == whole) by {
        assert(whole[0] == if s.len() > 0 {
            s[0]
        } else {
            unit[0]
        });
    }
    assert(memory_unit(whole) == (scale, n as nat));
    assert(whole.take(whole.len() - n) =~= s);
}

/// A text that ends in no unit is a number of bytes, or no size at all.
pub proof fn a_text_without_a_unit_is_a_number_of_bytes(s: Seq<char>)
    requires
        s.len() == 0 || !text::is_white(s[0]) && !text::is_white(s.last()),
        s.len() == 0 || s.last() != 'K' && s.last() != 'M' && s.last() != 'G' && s.last() != 'i',
    ensures
        memory_bytes(s) == match text::u64_value(s) {
            Ok(n) => Ok::<nat, MemoryError>(n),
            Err(e) => Err(MemoryError::BadFormat(e)),
        },
{
    assert(text::trim(s) == s);
    assert(s.take(s.len() as int) =~= s);
    lemma_once(s);
}

/// A number of single bytes is that number.
proof fn lemma_once(s: Seq<char>)
    ensures
        text::u64_value(s) matches Ok(n) ==> n * 1nat == n,
{
}

/// Scratch memory holds a page table for each 2 MiB of the heap and 16 more, and beside
/// them a quarter of the heap, or 64 MiB where that is more, in as few whole pages as
/// will do.
pub proof fn scratch_memory_holds_tables_and_a_quarter(heap: u64)
    ensures
        ({
            let tables = (heap / 2_097_152 + 16) * 4096;
            let s = scratch_size(heap as int);
            &&& s % 4096 == 0
            &&& s >= tables + heap / 4
            &&& s >= tables + 67_108_864
            &&& s < tables + heap / 4 + 4096 || s < tables + 67_108_864 + 4096
        }),
        DEFAULT_HEAP_SIZE == 512 * 1024 * 1024,
        DEFAULT_STACK_SIZE == 8 * 1024 * 1024,
{
}

/// A text that is no size is told why.
pub proof fn what_is_no_size_is_told_why(e: IntError)
    ensures
        MemoryError::BadNumber(e).wording() == e.wording(),
        MemoryError::BadFormat(e).wording() == "Invalid memory format: "@ + e.wording(),
        IntError::Empty.wording() == "cannot parse integer from empty string"@,
        IntError::InvalidDigit.wording() == "invalid digit found in string"@,
        IntError::Overflow.wording() == "number too large to fit in target type"@,
{
}

} // verus!
