//! The presentation generator: from a prompt to code, from the output of the guest
//! to a file.

use crate::base64_text;
use crate::base64_text::decode_base64;
use crate::path;
use crate::path::shown_bytes;
use crate::text;
use crate::text::{
    chars_of, decimal_of, find_chars, is_at, line_bounds, owned, text_of, trim_bounds,
};
use vstd::prelude::*;
use vstd::string::*;
use vstd::utf8::*;

verus! {

/// What the model is told to do.
pub const SYSTEM_PROMPT: &'static str = r#"Generate Python code using python-pptx to create presentations.

Requirements:
1. Use python-pptx to create the presentation
2. Save to '/output.pptx'
3. Output the file as base64 with prefix "PPTX_BASE64:"

End with:
import base64
with open('/output.pptx', 'rb') as f:
    data = f.read()
print(f"PPTX_BASE64:{base64.b64encode(data).decode()}")

Output only Python code.
"#;

/// Code that goes before every script: the clock of the guest starts in 1970, and
/// ZIP archives need a year from 1980 on.
pub const ZIPFILE_PATCH: &'static str = r#"
# Patch zipfile to handle timestamps before 1980 (required for Unikraft)
import zipfile
_orig_ZipInfo_init = zipfile.ZipInfo.__init__
def _patched_ZipInfo_init(self, filename="NoName", date_time=None):
    if date_time is None or date_time[0] < 1980:
        date_time = (2024, 1, 1, 0, 0, 0)
    _orig_ZipInfo_init(self, filename, date_time)
zipfile.ZipInfo.__init__ = _patched_ZipInfo_init

"#;

/// How many bytes of the output of the guest an error shows.
pub const PREVIEW_LEN: usize = 2000;

/// The request to the model.
pub fn user_prompt(prompt: &str) -> (r: String)
    ensures
        r@ == "Create a PowerPoint presentation: "@ + prompt@,
{
    let mut out = owned("Create a PowerPoint presentation: ");
    out.append(prompt);
    out
}

/// The script that the guest runs.
pub fn patched_script(code: &str) -> (r: String)
    ensures
        r@ == ZIPFILE_PATCH@ + code@,
{
    let mut out = owned(ZIPFILE_PATCH);
    out.append(code);
    out
}

// ---------------------------------------------------------------------------
// Code from the model
// ---------------------------------------------------------------------------

/// `s` without `prefix` at its start, if it stands there.
pub open spec fn without_prefix(s: Seq<char>, prefix: Seq<char>) -> Option<Seq<char>> {
    if text::occurs_at(s, prefix, 0) {
        Some(s.skip(prefix.len() as int))
    } else {
        None
    }
}

/// `s` without `suffix` at its end, if it stands there.
pub open spec fn without_suffix(s: Seq<char>, suffix: Seq<char>) -> Option<Seq<char>> {
    if text::occurs_at(s, suffix, s.len() - suffix.len()) {
        Some(s.take(s.len() - suffix.len()))
    } else {
        None
    }
}

/// The answer of the model behind its opening fence, or the whole answer where it
/// has none.
pub open spec fn behind_fence(content: Seq<char>) -> Seq<char> {
    match without_prefix(text::trim(content), "```python"@) {
        Some(rest) => rest,
        None => match without_prefix(text::trim(content), "```"@) {
            Some(rest) => rest,
            None => content,
        },
    }
}

/// The code in the answer of the model: without its markdown fence, where a
/// closing fence ends it, and else the whole answer; without white space around it.
pub open spec fn code_in(content: Seq<char>) -> Seq<char> {
    match without_suffix(behind_fence(content), "```"@) {
        Some(code) => text::trim(code),
        None => text::trim(content),
    }
}

/// Strip markdown code blocks if present.
pub fn strip_code_fence(content: &str) -> (r: String)
    ensures
        r@ == code_in(content@),
{
    let cs = chars_of(content);
    let (from, to) = trim_bounds(&cs, 0, cs.len());
    assert(cs@.subrange(0, cs@.len() as int) =~= content@);
    let trimmed = chars_of(text_of(&cs, from, to).as_str());
    assert(trimmed@ == text::trim(content@));
    let python = chars_of("```python");
    let fence = chars_of("```");
    let behind: Vec<char> = if is_at(&trimmed, &python, 0) {
        let rest = text_of(&trimmed, python.len(), trimmed.len());
        assert(rest@ =~= trimmed@.skip(python@.len() as int));
        chars_of(rest.as_str())
    } else if is_at(&trimmed, &fence, 0) {
        let rest = text_of(&trimmed, fence.len(), trimmed.len());
        assert(rest@ =~= trimmed@.skip(fence@.len() as int));
        chars_of(rest.as_str())
    } else {
        chars_of(content)
    };
    assert(behind@ == behind_fence(content@));
    if behind.len() >= fence.len() && is_at(&behind, &fence, behind.len() - fence.len()) {
        let end: usize = behind.len() - fence.len();
        let (a, b) = trim_bounds(&behind, 0, end);
        assert(behind@.subrange(0, end as int) =~= behind@.take(end as int));
        text_of(&behind, a, b)
    } else {
        text_of(&cs, from, to)
    }
}

// ---------------------------------------------------------------------------
// The presentation in the output
// ---------------------------------------------------------------------------

/// What is behind the marker on the first line that starts with it.
pub open spec fn marked_line(lines: Seq<Seq<char>>) -> Option<Seq<char>>
    decreases lines.len(),
{
    if lines.len() == 0 {
        None
    } else {
        match without_prefix(lines[0], "PPTX_BASE64:"@) {
            Some(rest) => Some(rest),
            None => marked_line(lines.drop_first()),
        }
    }
}

/// What is behind the first marker anywhere, up to the end of the line, or to a
/// message of the kernel, or to the end.
pub open spec fn marked_anywhere(output: Seq<char>) -> Option<Seq<char>> {
    match text::find(output, "PPTX_BASE64:"@) {
        None => None,
        Some(i) => {
            let rest = output.skip(i + "PPTX_BASE64:"@.len());
            let end = match text::find(rest, "\n"@) {
                Some(e) => e,
                None => match text::find(rest, "Kernel"@) {
                    Some(e) => e,
                    None => rest.len() as int,
                },
            };
            Some(rest.take(end))
        },
    }
}

/// The base64 text of the presentation in the output of the guest, if there is one.
pub open spec fn presentation_text(output: Seq<char>) -> Option<Seq<char>> {
    match marked_line(text::lines(output)) {
        Some(t) => Some(text::trim(t)),
        None => match marked_anywhere(output) {
            Some(t) => Some(text::trim(t)),
            None => None,
        },
    }
}

/// Why there is no presentation.
#[derive(Debug, PartialEq, Eq)]
pub enum ExtractError {
    /// The text behind the marker is no base64, for this reason.
    Decode(String),
    /// There is no marker; the text shows what there is instead.
    NoMarker(String),
}

/// `cut` is the part of `output` that takes the first bytes that an error shows.
pub open spec fn is_preview(output: Seq<char>, cut: Seq<char>) -> bool {
    cut.is_prefix_of(output) && encode_utf8(cut).len() == PREVIEW_LEN
}

/// `m` says that there is no marker in `output`, and shows `output`, or its
/// beginning and its length where it is long.
pub open spec fn is_no_marker_text(output: Seq<char>, m: Seq<char>) -> bool {
    let len = encode_utf8(output).len();
    let header = "PPTX_BASE64: marker not found in VM output:\n"@;
    if len > PREVIEW_LEN {
        exists|cut: Seq<char>| #[trigger]
            is_preview(output, cut) && m == header + cut + "...[truncated, "@ + text::decimal(len)
                + " bytes total]"@
    } else {
        m == header + output
    }
}

/// What is behind the marker on the first line that starts with it.
fn find_marked_line(cs: &[char]) -> (r: Option<String>)
    ensures
        match r {
            Some(t) => marked_line(text::lines(cs@)) == Some(t@),
            None => marked_line(text::lines(cs@)) is None,
        },
{
    let bounds = line_bounds(cs);
    let marker = chars_of("PPTX_BASE64:");
    let ghost lines = text::lines(cs@);
    assert(lines.skip(0) =~= lines);
    for i in 0..bounds.len()
        invariant
            marker@ == "PPTX_BASE64:"@,
            lines == text::lines(cs@),
            forall|k: int|
                0 <= k < bounds@.len() ==> (#[trigger] bounds@[k]).0 <= bounds@[k].1 <= cs@.len(),
            bounds@.map_values(|b: (usize, usize)| cs@.subrange(b.0 as int, b.1 as int)) == lines,
            marked_line(lines) == marked_line(lines.skip(i as int)),
    {
        let line = chars_of(text_of(cs, bounds[i].0, bounds[i].1).as_str());
        proof {
            assert(lines[i as int] == line@);
            assert(lines.skip(i as int)[0] == line@);
            assert(lines.skip(i as int).drop_first() =~= lines.skip(i + 1));
        }
        if is_at(&line, &marker, 0) {
            let rest = text_of(&line, marker.len(), line.len());
            assert(rest@ =~= line@.skip(marker@.len() as int));
            return Some(rest);
        }
    }
    assert(lines.skip(bounds@.len() as int) =~= Seq::empty());
    None
}

/// What is behind the first marker anywhere.
fn find_marked_anywhere(cs: &[char]) -> (r: Option<String>)
    ensures
        match r {
            Some(t) => marked_anywhere(cs@) == Some(t@),
            None => marked_anywhere(cs@) is None,
        },
{
    let marker = chars_of("PPTX_BASE64:");
    let n: usize = cs.len();
    let start: usize = match find_chars(cs, &marker) {
        None => {
            return None;
        },
        Some(i) => i,
    };
    let rest = chars_of(text_of(cs, start + marker.len(), n).as_str());
    assert(rest@ =~= cs@.skip(start + marker@.len()));
    let newline = chars_of("\n");
    let kernel = chars_of("Kernel");
    let end: usize = match find_chars(&rest, &newline) {
        Some(e) => e,
        None => match find_chars(&rest, &kernel) {
            Some(e) => e,
            None => rest.len(),
        },
    };
    let data = text_of(&rest, 0, end);
    assert(data@ =~= rest@.take(end as int));
    Some(data)
}

/// A text without the white space around it.
fn trimmed_text(s: &str) -> (r: String)
    ensures
        r@ == text::trim(s@),
{
    let cs = chars_of(s);
    let (a, b) = trim_bounds(&cs, 0, cs.len());
    assert(cs@.subrange(0, cs@.len() as int) =~= s@);
    text_of(&cs, a, b)
}

/// The message that there is no marker.
fn no_marker_text(output: &str) -> (r: String)
    requires
        encode_utf8(output@).len() > PREVIEW_LEN ==> exists|cut: Seq<char>| #[trigger]
            is_preview(output@, cut),
    ensures
        is_no_marker_text(output@, r@),
{
    let len: usize = output.as_bytes().len();
    let mut out = owned("PPTX_BASE64: marker not found in VM output:\n");
    if len <= PREVIEW_LEN {
        out.append(output);
        return out;
    }
    let cs = chars_of(output);
    let total: usize = cs.len();
    let mut k: usize = 0;
    while k < total
        invariant
            cs@ == output@,
            total == cs@.len(),
            len == encode_utf8(output@).len(),
            len > PREVIEW_LEN,
            k <= total,
            out@ == "PPTX_BASE64: marker not found in VM output:\n"@,
            exists|cut: Seq<char>| #[trigger] is_preview(output@, cut),
            forall|j: int| 0 <= j < k ==> !is_preview(output@, #[trigger] output@.take(j)),
        decreases total - k,
    {
        let cut = text_of(&cs, 0, k);
        assert(cut@ =~= output@.take(k as int));
        if cut.as_str().as_bytes().len() == PREVIEW_LEN {
            assert(is_preview(output@, cut@));
            out.append(cut.as_str());
            out.append("...[truncated, ");
            out.append(decimal_of(len as u64).as_str());
            out.append(" bytes total]");
            return out;
        }
        assert(!is_preview(output@, output@.take(k as int)));
        k += 1;
    }
    proof {
        let cut = choose|cut: Seq<char>| #[trigger] is_preview(output@, cut);
        assert(cut =~= output@.take(cut.len() as int));
        assert(output@.take(total as int) =~= output@);
        assert(cut.len() < total);
        assert(false);
    }
    out
}

/// Take the presentation out of the output of the guest.
///
/// Where there is no marker, the error shows the output, so that errors of the
/// script can be diagnosed. A long output is cut after its first bytes, which must
/// not split a character.
pub fn extract_pptx_from_output(output: &str) -> (r: Result<Vec<u8>, ExtractError>)
    requires
        presentation_text(output@) is None && encode_utf8(output@).len() > PREVIEW_LEN ==> exists|
            cut: Seq<char>,
        | #[trigger]
            is_preview(output@, cut),
    ensures
        match presentation_text(output@) {
            Some(t) => match r {
                Ok(b) => base64_text::base64_decoded(t) == Ok::<Seq<u8>, Seq<char>>(b@),
                Err(ExtractError::Decode(m)) => base64_text::base64_decoded(t) == Err::<
                    Seq<u8>,
                    Seq<char>,
                >(m@),
                Err(ExtractError::NoMarker(_)) => false,
            },
            None => r matches Err(ExtractError::NoMarker(m)) && is_no_marker_text(output@, m@),
        },
{
    let cs = chars_of(output);
    let marked = match find_marked_line(&cs) {
        Some(t) => Some(t),
        None => find_marked_anywhere(&cs),
    };
    match marked {
        Some(t) => match decode_base64(trimmed_text(t.as_str()).as_str()) {
            Ok(b) => Ok(b),
            Err(m) => Err(ExtractError::Decode(m)),
        },
        None => Err(ExtractError::NoMarker(no_marker_text(output))),
    }
}

// ---------------------------------------------------------------------------
// The root file system
// ---------------------------------------------------------------------------

/// Check that the kernel and the root file system are there.
pub fn check_assets(kernel: &[u8], kernel_exists: bool, rootfs: &[u8], rootfs_exists: bool) -> (r:
    Result<(), String>)
    ensures
        match r {
            Ok(_) => kernel_exists && rootfs_exists,
            Err(m) => if !kernel_exists {
                m@ == "kernel not found: "@ + path::shown_form(kernel@)
                    + ". Run 'make assets'."@
            } else {
                !rootfs_exists && m@ == "rootfs not found: "@ + path::shown_form(rootfs@)
                    + ". Run 'make assets'."@
            },
        },
{
    if !kernel_exists {
        let mut out = owned("kernel not found: ");
        out.append(shown_bytes(kernel).as_str());
        out.append(". Run 'make assets'.");
        return Err(out);
    }
    if !rootfs_exists {
        let mut out = owned("rootfs not found: ");
        out.append(shown_bytes(rootfs).as_str());
        out.append(". Run 'make assets'.");
        return Err(out);
    }
    Ok(())
}

/// The shell command that unpacks the archive into `dir`.
pub fn unpack_command(dir: &str, archive: &str) -> (r: String)
    ensures
        r@ == "cd "@ + dir@ + " && cpio -idm < "@ + archive@ + " 2>/dev/null"@,
{
    let mut out = owned("cd ");
    out.append(dir);
    out.append(" && cpio -idm < ");
    out.append(archive);
    out.append(" 2>/dev/null");
    out
}

/// The shell command that packs `dir` into the archive.
pub fn pack_command(dir: &str, archive: &str) -> (r: String)
    ensures
        r@ == "cd "@ + dir@ + " && find . 2>/dev/null | cpio -o -H newc > "@ + archive@
            + " 2>/dev/null"@,
{
    let mut out = owned("cd ");
    out.append(dir);
    out.append(" && find . 2>/dev/null | cpio -o -H newc > ");
    out.append(archive);
    out.append(" 2>/dev/null");
    out
}

// ---------------------------------------------------------------------------
// Laws
// ---------------------------------------------------------------------------

proof fn lemma_nothing_to_trim(s: Seq<char>)
    requires
        s.len() > 0,
        !text::is_white(s[0]),
        !text::is_white(s.last()),
    ensures
        text::trim(s) == s,
{
}

/// A block of Python in a markdown fence is taken out of its fence.
pub proof fn a_python_block_is_unwrapped(body: Seq<char>)
    ensures
        code_in("```python"@ + body + "```"@) == text::trim(body),
{
    reveal_strlit("```python");
    reveal_strlit("```");
    let open_fence = "```python"@;
    let fence = "```"@;
    let content = open_fence + body + fence;
    assert(content[0] == '`' && content.last() == '`');
    lemma_nothing_to_trim(content);
    assert(content.subrange(0, 9) =~= open_fence);
    let behind = behind_fence(content);
    assert(behind =~= body + fence);
    assert(behind.subrange(behind.len() - 3, behind.len() as int) =~= fence);
    assert(behind.take(behind.len() - 3) =~= body);
}

/// An answer without any fence is taken as it is, but for the white space around
/// it.
pub proof fn an_answer_without_a_fence_is_kept(content: Seq<char>)
    requires
        !text::occurs_at(text::trim(content), "```"@, 0),
        !text::occurs_at(content, "```"@, content.len() - 3),
    ensures
        code_in(content) == text::trim(content),
{
    reveal_strlit("```");
    reveal_strlit("```python");
    let t = text::trim(content);
    if text::occurs_at(t, "```python"@, 0) {
        assert(t.subrange(0, 9) == "```python"@);
        assert(t.subrange(0, 3) =~= "```"@) by {
            assert forall|i: int| 0 <= i < 3 implies t[i] == '`' by {
                assert(t.subrange(0, 9)[i] == "```python"@[i]);
            }
        }
    }
}

proof fn lemma_lines_behind(a: Seq<char>, b: Seq<char>)
    requires
        a.len() == 0 || a.last() == '\n',
    ensures
        text::lines(a + b) == text::lines(a) + text::lines(b),
    decreases a.len(),
{
    if a.len() == 0 {
        assert(a + b =~= b);
        assert(text::lines(a) =~= Seq::empty());
        assert(text::lines(a) + text::lines(b) =~= text::lines(b));
    } else {
        let i = text::index_or_len(a, '\n');
        text::lemma_index_or_len(a, '\n');
        text::lemma_index_or_len_is(a + b, '\n', i);
        assert((a + b).take(i) =~= a.take(i));
        let rest = a.skip(i + 1);
        assert((a + b).skip(i + 1) =~= rest + b);
        assert(rest.len() == 0 || rest.last() == '\n');
        lemma_lines_behind(rest, b);
        assert(text::lines(a + b) =~= text::lines(a) + text::lines(b));
    }
}

proof fn lemma_marked_behind(a: Seq<Seq<char>>, b: Seq<Seq<char>>)
    requires
        marked_line(a) is None,
    ensures
        marked_line(a + b) == marked_line(b),
    decreases a.len(),
{
    if a.len() == 0 {
        assert(a + b =~= b);
    } else {
        assert((a + b).drop_first() =~= a.drop_first() + b);
        assert((a + b)[0] == a[0]);
        lemma_marked_behind(a.drop_first(), b);
    }
}

/// What a script prints on a line of its own behind the marker is what is taken out
/// of the output, whatever else is printed before it, as long as no line of that
/// starts with the marker, and whatever is printed behind it.
pub proof fn a_marked_line_is_taken_out(before: Seq<char>, data: Seq<char>, after: Seq<char>)
    requires
        before.len() == 0 || before.last() == '\n',
        marked_line(text::lines(before)) is None,
        !data.contains('\n'),
        data.len() > 0,
        !text::is_white(data[0]),
        !text::is_white(data.last()),
    ensures
        presentation_text(before + "PPTX_BASE64:"@ + data + "\n"@ + after) == Some(data),
{
    reveal_strlit("PPTX_BASE64:");
    reveal_strlit("\n");
    let marker = "PPTX_BASE64:"@;
    let line = marker + data;
    let tail = line + "\n"@ + after;
    let output = before + marker + data + "\n"@ + after;
    assert(output =~= before + tail);
    lemma_lines_behind(before, tail);
    let n = line.len() as int;
    assert forall|j: int| 0 <= j < n implies tail[j] != '\n' by {
        if j >= marker.len() {
            assert(tail[j] == data[j - marker.len()]);
            assert(data.contains(data[j - marker.len()]));
        }
    }
    text::lemma_index_or_len_is(tail, '\n', n);
    assert(tail.take(n) =~= line);
    assert(line.last() == data.last());
    assert(text::without_cr(line) == line);
    let lines = text::lines(tail);
    assert(lines[0] == line);
    assert(line.subrange(0, marker.len() as int) =~= marker);
    assert(line.skip(marker.len() as int) =~= data);
    lemma_marked_behind(text::lines(before), lines);
    lemma_nothing_to_trim(data);
}

proof fn lemma_fence()
    ensures
        "```"@ == seq!['`', '`', '`'],
        "```python"@ == seq!['`', '`', '`', 'p', 'y', 't', 'h', 'o', 'n'],
{
    reveal_strlit("```");
    reveal_strlit("```python");
    assert("```"@ =~= seq!['`', '`', '`']);
    assert("```python"@ =~= seq!['`', '`', '`', 'p', 'y', 't', 'h', 'o', 'n']);
}

/// A block in a markdown fence without a language is taken out of its fence.
pub proof fn a_plain_block_is_unwrapped(body: Seq<char>)
    requires
        !text::reads_at(body + seq!['`', '`', '`'], seq!['p', 'y', 't', 'h', 'o', 'n'], 0),
    ensures
        code_in(seq!['`', '`', '`'] + body + seq!['`', '`', '`']) == text::trim(body),
{
    lemma_fence();
    let fence = seq!['`', '`', '`'];
    let python = seq!['p', 'y', 't', 'h', 'o', 'n'];
    let tail = body + fence;
    let content = fence + body + fence;
    assert(content =~= fence + tail);
    assert(content[0] == '`' && content.last() == '`');
    lemma_nothing_to_trim(content);
    assert(content.subrange(0, 3) =~= fence);
    if text::occurs_at(content, "```python"@, 0) {
        assert forall|k: int| 0 <= k < python.len() implies tail[0 + k] == #[trigger] python[k] by {
            assert(content.subrange(0, 9)[3 + k] == "```python"@[3 + k]);
        }
        assert(text::reads_at(tail, python, 0));
    }
    let behind = behind_fence(content);
    assert(behind =~= tail);
    assert(behind.subrange(behind.len() - 3, behind.len() as int) =~= fence);
    assert(behind.take(behind.len() - 3) =~= body);
}

/// White space around a fenced block counts for nothing.
pub proof fn white_space_around_a_block_counts_for_nothing(
    before: Seq<char>,
    block: Seq<char>,
    after: Seq<char>,
)
    requires
        text::all_white(before),
        text::all_white(after),
        block.len() >= 3,
        block[0] == '`' && block[1] == '`' && block[2] == '`',
        !text::is_white(block.last()),
    ensures
        code_in(before + block + after) == code_in(block),
{
    lemma_fence();
    text::lemma_trim_around(before, block, after);
    lemma_nothing_to_trim(block);
    assert(block.subrange(0, 3) =~= "```"@);
}

/// An opening fence that nothing closes is left where it is.
pub proof fn a_block_that_is_not_closed_is_kept(content: Seq<char>)
    requires
        !text::reads_at(
            content,
            seq!['`', '`', '`'],
            content.len() - 3,
        ),
        content.len() == 0 || !text::is_white(content[0]) && !text::is_white(content.last()),
    ensures
        code_in(content) == content,
{
    lemma_fence();
    let fence = seq!['`', '`', '`'];
    assert(text::trim(content) == content);
    let behind = behind_fence(content);
    if text::occurs_at(behind, fence, behind.len() - 3) {
        let n = content.len();
        let d = n - behind.len();
        assert(behind =~= content.skip(d));
        assert forall|k: int| 0 <= k < fence.len() implies content[n - 3 + k] == #[trigger] fence[k] by {
            assert(behind.subrange(behind.len() - 3, behind.len() as int)[k] == fence[k]);
        }
        assert(text::reads_at(content, fence, n - 3));
    }
}

/// A closing fence that nothing opens is taken off.
pub proof fn a_closing_fence_alone_is_taken_off(body: Seq<char>)
    requires
        !text::reads_at(
            text::trim(body + seq!['`', '`', '`']),
            seq!['`', '`', '`'],
            0,
        ),
    ensures
        code_in(body + seq!['`', '`', '`']) == text::trim(body),
{
    lemma_fence();
    let fence = seq!['`', '`', '`'];
    let content = body + fence;
    let t = text::trim(content);
    if text::occurs_at(t, fence, 0) {
        assert forall|k: int| 0 <= k < fence.len() implies t[0 + k] == #[trigger] fence[k] by {
            assert(t.subrange(0, 3)[k] == fence[k]);
        }
        assert(text::reads_at(t, fence, 0));
    }
    if text::occurs_at(t, "```python"@, 0) {
        assert forall|k: int| 0 <= k < fence.len() implies t[0 + k] == #[trigger] fence[k] by {
            assert(t.subrange(0, 9)[k] == "```python"@[k]);
        }
        assert(text::reads_at(t, fence, 0));
    }
    assert(content.subrange(content.len() - 3, content.len() as int) =~= fence);
    assert(content.take(content.len() - 3) =~= body);
}

/// `p` stands in `s` at `i`, character by character or as a whole.
proof fn lemma_stands(s: Seq<char>, p: Seq<char>, i: int)
    ensures
        text::reads_at(s, p, i) == text::occurs_at(s, p, i),
{
    if text::reads_at(s, p, i) {
        assert(s.subrange(i, i + p.len()) =~= p);
    }
    if text::occurs_at(s, p, i) {
        assert forall|k: int| 0 <= k < p.len() implies s[i + k] == #[trigger] p[k] by {
            assert(s.subrange(i, i + p.len())[k] == p[k]);
        }
    }
}

/// A line is marked where it begins with the marker, and the first such line counts:
/// what is behind the marker on it is what is marked.
pub proof fn the_first_line_with_the_marker_counts(
    before: Seq<Seq<char>>,
    rest: Seq<char>,
    after: Seq<Seq<char>>,
)
    requires
        forall|i: int|
            0 <= i < before.len() ==> !text::reads_at(#[trigger] before[i], "PPTX_BASE64:"@, 0),
    ensures
        marked_line(before) is None,
        marked_line(before + seq!["PPTX_BASE64:"@ + rest] + after) == Some(rest),
    decreases before.len(),
{
    let marker = "PPTX_BASE64:"@;
    let line = marker + rest;
    let all = before + seq![line] + after;
    if before.len() == 0 {
        assert(line.subrange(0, marker.len() as int) =~= marker);
        assert(line.skip(marker.len() as int) =~= rest);
        assert(all[0] == line);
    } else {
        let fewer = before.drop_first();
        assert forall|i: int| 0 <= i < fewer.len() implies !text::reads_at(
            #[trigger] fewer[i],
            marker,
            0,
        ) by {
            assert(fewer[i] == before[i + 1]);
        }
        assert(!text::reads_at(before[0], marker, 0));
        lemma_stands(before[0], marker, 0);
        the_first_line_with_the_marker_counts(fewer, rest, after);
        assert(all[0] == before[0]);
        assert(all.drop_first() =~= fewer + seq![line] + after);
    }
}

/// Every line of a text stands in it.
proof fn lemma_line_stands_in(s: Seq<char>, k: int) -> (at: int)
    requires
        0 <= k < text::lines(s).len(),
    ensures
        0 <= at,
        at + text::lines(s)[k].len() <= s.len(),
        forall|j: int|
            0 <= j < text::lines(s)[k].len() ==> s[at + j] == #[trigger] text::lines(s)[k][j],
    decreases s.len(),
{
    text::lemma_index_or_len(s, '\n');
    let i = text::index_or_len(s, '\n');
    if i >= s.len() {
        0
    } else if k == 0 {
        assert(text::lines(s)[0] == text::without_cr(s.take(i)));
        0
    } else {
        let rest = s.skip(i + 1);
        assert(text::lines(s)[k] == text::lines(rest)[k - 1]);
        let at = lemma_line_stands_in(rest, k - 1);
        assert forall|j: int| 0 <= j < text::lines(s)[k].len() implies s[i + 1 + at + j]
            == #[trigger] text::lines(s)[k][j] by {
            assert(rest[at + j] == text::lines(rest)[k - 1][j]);
        }
        i + 1 + at
    }
}

/// Output without the marker holds no presentation.
pub proof fn output_without_the_marker_holds_nothing(output: Seq<char>)
    requires
        forall|j: int| !text::reads_at(output, "PPTX_BASE64:"@, j),
    ensures
        presentation_text(output) is None,
{
    let marker = "PPTX_BASE64:"@;
    let lines = text::lines(output);
    text::what_stands_nowhere_is_not_found(output, marker);
    assert forall|k: int| 0 <= k < lines.len() implies !text::reads_at(
        #[trigger] lines[k],
        marker,
        0,
    ) by {
        if text::reads_at(lines[k], marker, 0) {
            let at = lemma_line_stands_in(output, k);
            assert forall|c: int| 0 <= c < marker.len() implies output[at + c]
                == #[trigger] marker[c] by {
                assert(lines[k][0 + c] == marker[c]);
                assert(output[at + c] == lines[k][c]);
            }
            assert(text::reads_at(output, marker, at));
        }
    }
    the_first_line_with_the_marker_counts(lines, Seq::empty(), Seq::empty());
}

/// Where no line begins with the marker, what is behind the first marker counts: up to
/// the end of its line.
pub proof fn a_marker_inside_a_line_counts(before: Seq<char>, data: Seq<char>, after: Seq<char>)
    requires
        ({
            let output = before + "PPTX_BASE64:"@ + data + seq!['\n'] + after;
            &&& forall|k: int|
                0 <= k < text::lines(output).len() ==> !text::reads_at(
                    #[trigger] text::lines(output)[k],
                    "PPTX_BASE64:"@,
                    0,
                )
            &&& forall|j: int| 0 <= j < before.len() ==> !text::reads_at(output, "PPTX_BASE64:"@, j)
        }),
        !data.contains('\n'),
    ensures
        presentation_text(before + "PPTX_BASE64:"@ + data + seq!['\n'] + after) == Some(
            text::trim(data),
        ),
{
    reveal_strlit("\n");
    assert("\n"@ =~= seq!['\n']);
    let marker = "PPTX_BASE64:"@;
    let output = before + marker + data + seq!['\n'] + after;
    let n = before.len() as int;
    the_first_line_with_the_marker_counts(text::lines(output), Seq::empty(), Seq::empty());
    assert forall|k: int| 0 <= k < marker.len() implies output[n + k] == #[trigger] marker[k] by {}
    text::a_text_is_found_where_it_stands_first(output, marker, n);
    let rest = output.skip(n + marker.len());
    assert(rest =~= data + seq!['\n'] + after);
    let end = data.len() as int;
    assert forall|j: int| 0 <= j < end implies !text::reads_at(rest, "\n"@, j) by {
        if text::reads_at(rest, "\n"@, j) {
            assert(rest[j + 0] == "\n"@[0]);
            assert(data.contains(data[j]));
        }
    }
    assert(text::reads_at(rest, "\n"@, end));
    text::a_text_is_found_where_it_stands_first(rest, "\n"@, end);
    assert(rest.take(end) =~= data);
}

/// Where the output ends on the line of the marker, what is behind the marker counts up
/// to a message of the kernel, or else to the end.
pub proof fn a_marker_on_the_last_line_counts(before: Seq<char>, data: Seq<char>, after: Seq<char>)
    requires
        after.len() == 0 || text::reads_at(after, "Kernel"@, 0),
        ({
            let output = before + "PPTX_BASE64:"@ + data + after;
            &&& forall|k: int|
                0 <= k < text::lines(output).len() ==> !text::reads_at(
                    #[trigger] text::lines(output)[k],
                    "PPTX_BASE64:"@,
                    0,
                )
            &&& forall|j: int| 0 <= j < before.len() ==> !text::reads_at(output, "PPTX_BASE64:"@, j)
        }),
        !(data + after).contains('\n'),
        forall|j: int| 0 <= j < data.len() ==> !text::reads_at(data + after, "Kernel"@, j),
    ensures
        presentation_text(before + "PPTX_BASE64:"@ + data + after) == Some(text::trim(data)),
{
    reveal_strlit("\n");
    reveal_strlit("Kernel");
    let marker = "PPTX_BASE64:"@;
    let kernel = "Kernel"@;
    let output = before + marker + data + after;
    let n = before.len() as int;
    the_first_line_with_the_marker_counts(text::lines(output), Seq::empty(), Seq::empty());
    assert forall|k: int| 0 <= k < marker.len() implies output[n + k] == #[trigger] marker[k] by {}
    text::a_text_is_found_where_it_stands_first(output, marker, n);
    let rest = output.skip(n + marker.len());
    assert(rest =~= data + after);
    assert forall|j: int| !text::reads_at(rest, "\n"@, j) by {
        if text::reads_at(rest, "\n"@, j) {
            assert(rest[j + 0] == "\n"@[0]);
            assert(rest.contains(rest[j]));
        }
    }
    text::what_stands_nowhere_is_not_found(rest, "\n"@);
    let end = data.len() as int;
    if after.len() > 0 {
        assert forall|k: int| 0 <= k < kernel.len() implies rest[end + k] == #[trigger] kernel[k] by {
            assert(after[0 + k] == kernel[k]);
        }
        text::a_text_is_found_where_it_stands_first(rest, kernel, end);
    } else {
        assert forall|j: int| !text::reads_at(rest, kernel, j) by {}
        text::what_stands_nowhere_is_not_found(rest, kernel);
        assert(rest =~= data);
    }
    assert(rest.take(end) =~= data);
}

/// Where there is no marker, the output is shown, or its first 2000 bytes and how many
/// there are.
pub proof fn output_without_a_marker_is_shown(output: Seq<char>, m: Seq<char>)
    requires
        is_no_marker_text(output, m),
    ensures
        encode_utf8(output).len() <= 2000 ==> m
            == "PPTX_BASE64: marker not found in VM output:\n"@ + output,
        encode_utf8(output).len() > 2000 ==> exists|cut: Seq<char>|
            #[trigger] cut.is_prefix_of(output) && encode_utf8(cut).len() == 2000 && m
                == "PPTX_BASE64: marker not found in VM output:\n"@ + cut + "...[truncated, "@
                + text::decimal(encode_utf8(output).len()) + " bytes total]"@,
{
    if encode_utf8(output).len() > 2000 {
        let header = "PPTX_BASE64: marker not found in VM output:\n"@;
        let len = encode_utf8(output).len();
        let cut = choose|cut: Seq<char>| #[trigger]
            is_preview(output, cut) && m == header + cut + "...[truncated, "@ + text::decimal(len)
                + " bytes total]"@;
        assert(cut.is_prefix_of(output));
    }
}

} // verus!
