//! Uniform wording for file system errors.
//!
//! The guest classifies an error by searching its text for the Linux wording.
//! Hosts word the same error differently, but each keeps the error number, so
//! the wording is restored from the number.

use crate::text;
use crate::text::{chars_of, find_chars, is_at, owned, text_of};
use vstd::prelude::*;
use vstd::string::*;

verus! {

/// `s` ends with `marker`.
pub open spec fn ends_in(s: Seq<char>, marker: Seq<char>) -> bool {
    text::occurs_at(s, marker, s.len() - marker.len())
}

/// The error number that ends the error text `s`, where it is a known one, and
/// the Linux wording for it.
pub open spec fn error_class(s: Seq<char>) -> Option<(Seq<char>, Seq<char>)> {
    if ends_in(s, "(os error 2)"@) {
        Some(("(os error 2)"@, "No such file or directory"@))
    } else if ends_in(s, "(os error 13)"@) {
        Some(("(os error 13)"@, "Permission denied"@))
    } else if ends_in(s, "(os error 17)"@) {
        Some(("(os error 17)"@, "File exists"@))
    } else if ends_in(s, "(os error 20)"@) {
        Some(("(os error 20)"@, "Not a directory"@))
    } else if ends_in(s, "(os error 21)"@) {
        Some(("(os error 21)"@, "Is a directory"@))
    } else if ends_in(s, "(os error 39)"@) {
        Some(("(os error 39)"@, "Directory not empty"@))
    } else {
        None
    }
}

/// What stands before the first `": "` of `s`, with that separator kept.
pub open spec fn context(s: Seq<char>) -> Seq<char> {
    match text::find(s, ": "@) {
        Some(i) => s.take(i) + ": "@,
        None => Seq::empty(),
    }
}

/// The error text `s` in Linux wording: where a known error number ends `s`, its
/// context, the wording for the number, and the number; else `s` itself.
pub open spec fn normalized(s: Seq<char>) -> Seq<char> {
    match error_class(s) {
        Some((marker, wording)) => context(s) + wording + " "@ + marker,
        None => s,
    }
}

fn reworded(s: &[char], wording: &str, marker: &str) -> (r: String)
    ensures
        r@ == context(s@) + wording@ + " "@ + marker@,
{
    let sep = chars_of(": ");
    let mut out = String::new();
    match find_chars(s, &sep) {
        Some(i) => {
            let before = text_of(s, 0, i);
            out.append(before.as_str());
            out.append(": ");
            assert(out@ =~= context(s@));
        },
        None => {
            assert(out@ =~= context(s@));
        },
    }
    out.append(wording);
    out.append(" ");
    out.append(marker);
    out
}

fn has_suffix(s: &[char], marker: &str) -> (r: bool)
    ensures
        r == ends_in(s@, marker@),
{
    let p = chars_of(marker);
    p.len() <= s.len() && is_at(s, &p, s.len() - p.len())
}

/// Rewrite host-OS-specific error wording to the canonical Linux form so that
/// the guest can classify errors by substring without caring which host it is
/// running on.
///
/// Only rewrites the message when the error is identified by its `os error N`
/// suffix. Otherwise passes the string through unchanged, so that unusual
/// errors are still visible in debug output.
pub fn normalize_fs_error(s: &str) -> (r: String)
    ensures
        r@ == normalized(s@),
{
    let cs = chars_of(s);
    if has_suffix(&cs, "(os error 2)") {
        reworded(&cs, "No such file or directory", "(os error 2)")
    } else if has_suffix(&cs, "(os error 13)") {
        reworded(&cs, "Permission denied", "(os error 13)")
    } else if has_suffix(&cs, "(os error 17)") {
        reworded(&cs, "File exists", "(os error 17)")
    } else if has_suffix(&cs, "(os error 20)") {
        reworded(&cs, "Not a directory", "(os error 20)")
    } else if has_suffix(&cs, "(os error 21)") {
        reworded(&cs, "Is a directory", "(os error 21)")
    } else if has_suffix(&cs, "(os error 39)") {
        reworded(&cs, "Directory not empty", "(os error 39)")
    } else {
        owned(s)
    }
}

// ---------------------------------------------------------------------------
// Laws
// ---------------------------------------------------------------------------

/// A text of the table's shape: `(` only at its start, no `:`.
spec fn marker_shape(m: Seq<char>) -> bool {
    &&& m.len() > 0
    &&& m[0] == '('
    &&& forall|j: int| 0 < j < m.len() ==> m[j] != '('
    &&& forall|j: int| 0 <= j < m.len() ==> m[j] != ':'
}

/// A wording holds neither `(` nor `:`.
spec fn wording_shape(w: Seq<char>) -> bool {
    forall|j: int| 0 <= j < w.len() ==> w[j] != '(' && w[j] != ':'
}

/// Of two markers at most one ends a text.
proof fn lemma_one_suffix(s: Seq<char>, m: Seq<char>, other: Seq<char>)
    requires
        marker_shape(m),
        marker_shape(other),
        ends_in(s, m),
        ends_in(s, other),
    ensures
        m == other,
{
    let a = s.len() - m.len();
    let b = s.len() - other.len();
    let from_a = s.subrange(a, s.len() as int);
    let from_b = s.subrange(b, s.len() as int);
    assert(from_a == m && from_b == other);
    assert(from_a[0] == s[a] && from_b[0] == s[b]);
    if a < b {
        assert(from_a[b - a] == s[b]);
    }
    if b < a {
        assert(from_b[a - b] == s[a]);
    }
}

proof fn lemma_marker_shapes()
    ensures
        marker_shape("(os error 2)"@),
        marker_shape("(os error 13)"@),
        marker_shape("(os error 17)"@),
        marker_shape("(os error 20)"@),
        marker_shape("(os error 21)"@),
        marker_shape("(os error 39)"@),
        wording_shape("No such file or directory"@),
        wording_shape("Permission denied"@),
        wording_shape("File exists"@),
        wording_shape("Not a directory"@),
        wording_shape("Is a directory"@),
        wording_shape("Directory not empty"@),
{
    reveal_strlit("(os error 2)");
    reveal_strlit("(os error 13)");
    reveal_strlit("(os error 17)");
    reveal_strlit("(os error 20)");
    reveal_strlit("(os error 21)");
    reveal_strlit("(os error 39)");
    reveal_strlit("No such file or directory");
    reveal_strlit("Permission denied");
    reveal_strlit("File exists");
    reveal_strlit("Not a directory");
    reveal_strlit("Is a directory");
    reveal_strlit("Directory not empty");
}

proof fn lemma_markers_distinct()
    ensures
        "(os error 2)"@ != "(os error 13)"@,
        "(os error 2)"@ != "(os error 17)"@,
        "(os error 2)"@ != "(os error 20)"@,
        "(os error 2)"@ != "(os error 21)"@,
        "(os error 2)"@ != "(os error 39)"@,
        "(os error 13)"@ != "(os error 17)"@,
        "(os error 13)"@ != "(os error 20)"@,
        "(os error 13)"@ != "(os error 21)"@,
        "(os error 13)"@ != "(os error 39)"@,
        "(os error 17)"@ != "(os error 20)"@,
        "(os error 17)"@ != "(os error 21)"@,
        "(os error 17)"@ != "(os error 39)"@,
        "(os error 20)"@ != "(os error 21)"@,
        "(os error 20)"@ != "(os error 39)"@,
        "(os error 21)"@ != "(os error 39)"@,
{
    reveal_strlit("(os error 2)");
    reveal_strlit("(os error 13)");
    reveal_strlit("(os error 17)");
    reveal_strlit("(os error 20)");
    reveal_strlit("(os error 21)");
    reveal_strlit("(os error 39)");
    assert("(os error 2)"@.len() == 12);
    assert("(os error 13)"@.len() == 13 && "(os error 13)"@[10] == '1' && "(os error 13)"@[11] == '3');
    assert("(os error 17)"@.len() == 13 && "(os error 17)"@[10] == '1' && "(os error 17)"@[11] == '7');
    assert("(os error 20)"@.len() == 13 && "(os error 20)"@[10] == '2' && "(os error 20)"@[11] == '0');
    assert("(os error 21)"@.len() == 13 && "(os error 21)"@[10] == '2' && "(os error 21)"@[11] == '1');
    assert("(os error 39)"@.len() == 13 && "(os error 39)"@[10] == '3' && "(os error 39)"@[11] == '9');
}

/// The rewritten text is in the class of the text it was made from.
proof fn lemma_class_is_kept(s: Seq<char>)
    requires
        error_class(s) is Some,
    ensures
        error_class(normalized(s)) == error_class(s),
{
    lemma_marker_shapes();
    lemma_markers_distinct();
    let (m, w) = error_class(s)->0;
    let out = normalized(s);
    assert(ends_in(out, m)) by {
        let i = out.len() - m.len();
        assert(out.subrange(i, i + m.len()) =~= m);
    }
    assert forall|other: Seq<char>| marker_shape(other) && #[trigger] ends_in(
        out,
        other,
    ) implies other == m by {
        lemma_one_suffix(out, m, other);
    }
}

/// The rewritten text has the context of the text it was made from.
proof fn lemma_context_is_kept(s: Seq<char>, w: Seq<char>, m: Seq<char>)
    requires
        marker_shape(m),
        wording_shape(w),
    ensures
        context(context(s) + w + " "@ + m) == context(s),
{
    reveal_strlit(": ");
    reveal_strlit(" ");
    let sep = ": "@;
    let c = context(s);
    let out = c + w + " "@ + m;
    assert forall|j: int| c.len() <= j < out.len() implies out[j] != ':' by {
        if j < c.len() + w.len() {
            assert(out[j] == w[j - c.len()]);
        } else if j > c.len() + w.len() {
            assert(out[j] == m[j - c.len() - w.len() - 1]);
        }
    }
    if text::contains(s, sep) {
        text::lemma_find_first(s, sep);
        let k = text::find(s, sep)->0;
        assert(c =~= s.take(k) + sep);
        assert(out.subrange(k, k + 2) =~= sep);
        assert forall|j: int| 0 <= j < k implies !text::occurs_at(out, sep, j) by {
            if text::occurs_at(out, sep, j) {
                assert(out.subrange(j, j + 2)[0] == ':');
                assert(out.subrange(j, j + 2)[1] == ' ');
                assert(out[j] == s[j]);
                if j + 1 < k {
                    assert(out[j + 1] == s[j + 1]);
                } else {
                    assert(out[k] == ':');
                    assert(false);
                }
                assert(s.subrange(j, j + 2) =~= sep);
                assert(text::occurs_at(s, sep, j));
            }
        }
        text::lemma_find_is(out, sep, k);
        assert(out.take(k) =~= s.take(k));
    } else {
        assert(c =~= Seq::<char>::empty());
        assert forall|j: int| !text::occurs_at(out, sep, j) by {
            if text::occurs_at(out, sep, j) {
                assert(out.subrange(j, j + 2)[0] == ':');
                assert(out[j] == ':');
            }
        }
    }
}

/// Normalizing twice is normalizing once.
pub proof fn normalizing_is_idempotent(s: Seq<char>)
    ensures
        normalized(normalized(s)) == normalized(s),
{
    lemma_marker_shapes();
    if error_class(s) is Some {
        lemma_class_is_kept(s);
        let (m, w) = error_class(s)->0;
        lemma_context_is_kept(s, w, m);
    }
}

/// A text that no known error number ends is passed through, and one that a known
/// error number ends keeps its context and ends in the Linux wording and the number.
pub proof fn normalizing_keeps_context_and_number(s: Seq<char>)
    ensures
        error_class(s) is None ==> normalized(s) == s,
        error_class(s) matches Some((marker, wording)) ==> {
            &&& context(s).is_prefix_of(normalized(s))
            &&& (wording + " "@ + marker).is_suffix_of(normalized(s))
            &&& error_class(normalized(s)) == error_class(s)
        },
{
    if error_class(s) is Some {
        lemma_class_is_kept(s);
        let (marker, wording) = error_class(s)->0;
        let out = normalized(s);
        let tail = wording + " "@ + marker;
        assert(out =~= context(s) + tail);
        assert(out.take(context(s).len() as int) =~= context(s));
        assert(out.subrange(out.len() - tail.len(), out.len() as int) =~= tail);
    }
}

/// Linux wording is left alone: a text whose context is followed by the Linux
/// wording and the number of its own class stays as it is.
pub proof fn linux_wording_is_left_alone(s: Seq<char>)
    requires
        error_class(s) matches Some((marker, wording)) && s == context(s) + wording + " "@ + marker,
    ensures
        normalized(s) == s,
{
}

/// An error number of Linux that the guest knows, and its wording.
pub open spec fn is_known(marker: Seq<char>, wording: Seq<char>) -> bool {
    ||| marker == "(os error 2)"@ && wording == "No such file or directory"@
    ||| marker == "(os error 13)"@ && wording == "Permission denied"@
    ||| marker == "(os error 17)"@ && wording == "File exists"@
    ||| marker == "(os error 20)"@ && wording == "Not a directory"@
    ||| marker == "(os error 21)"@ && wording == "Is a directory"@
    ||| marker == "(os error 39)"@ && wording == "Directory not empty"@
}

/// An error whose number the guest knows is worded as on Linux: what stands before the
/// first colon and space is kept, whatever the host says behind it is replaced by the
/// wording for the number, and the number stays at the end.
pub proof fn a_known_error_is_worded_as_on_linux(
    before: Seq<char>,
    said: Seq<char>,
    marker: Seq<char>,
    wording: Seq<char>,
)
    requires
        is_known(marker, wording),
        forall|j: int|
            0 <= j < before.len() - 1 && #[trigger] before[j] == ':' ==> before[j + 1] != ' ',
    ensures
        normalized(before + seq![':', ' '] + said + marker) == before + seq![':', ' '] + wording
            + seq![' '] + marker,
{
    reveal_strlit(": ");
    reveal_strlit(" ");
    lemma_marker_shapes();
    lemma_markers_distinct();
    let sep = ": "@;
    let s = before + seq![':', ' '] + said + marker;
    assert(sep =~= seq![':', ' ']);
    assert(" "@ =~= seq![' ']);
    assert(s.skip(s.len() - marker.len()) =~= marker);
    lemma_class_of(s, marker, wording);
    let k = before.len() as int;
    assert(s.subrange(k, k + 2) =~= sep);
    assert forall|j: int| 0 <= j < k implies !text::occurs_at(s, sep, j) by {
        if text::occurs_at(s, sep, j) {
            assert(s.subrange(j, j + 2)[0] == ':' && s.subrange(j, j + 2)[1] == ' ');
            if j + 1 < k {
                assert(before[j] == ':' && before[j + 1] == ' ');
            }
        }
    }
    text::lemma_find_is(s, sep, k);
    assert(s.take(k) =~= before);
}

/// Where no context stands before it, the wording and the number are all that is left.
pub proof fn a_known_error_without_context_is_its_wording(
    said: Seq<char>,
    marker: Seq<char>,
    wording: Seq<char>,
)
    requires
        is_known(marker, wording),
        !said.contains(':'),
    ensures
        normalized(said + marker) == wording + seq![' '] + marker,
{
    reveal_strlit(": ");
    reveal_strlit(" ");
    lemma_marker_shapes();
    lemma_markers_distinct();
    let sep = ": "@;
    let s = said + marker;
    assert(" "@ =~= seq![' ']);
    assert(s.skip(s.len() - marker.len()) =~= marker);
    lemma_class_of(s, marker, wording);
    assert forall|j: int| !text::occurs_at(s, sep, j) by {
        if text::occurs_at(s, sep, j) {
            assert(s.subrange(j, j + 2)[0] == ':');
            if j < said.len() {
                assert(said.contains(said[j]));
            } else {
                assert(marker[j - said.len()] == ':');
            }
        }
    }
    assert(context(s) =~= Seq::empty());
    assert(normalized(s) =~= wording + seq![' '] + marker);
}

/// A text that a known number ends is of the class of that number.
proof fn lemma_class_of(s: Seq<char>, marker: Seq<char>, wording: Seq<char>)
    requires
        is_known(marker, wording),
        marker.len() <= s.len(),
        s.skip(s.len() - marker.len()) == marker,
    ensures
        error_class(s) == Some((marker, wording)),
{
    lemma_marker_shapes();
    lemma_markers_distinct();
    let i = s.len() - marker.len();
    assert(s.subrange(i, i + marker.len()) =~= s.skip(i));
    assert(ends_in(s, marker));
    assert forall|other: Seq<char>| marker_shape(other) && #[trigger] ends_in(
        s,
        other,
    ) implies other == marker by {
        lemma_one_suffix(s, marker, other);
    }
}

/// Any other error is passed on as it is.
pub proof fn any_other_error_is_passed_on(s: Seq<char>)
    requires
        forall|marker: Seq<char>, wording: Seq<char>| #[trigger]
            is_known(marker, wording) ==> !marker.is_suffix_of(s),
    ensures
        normalized(s) == s,
{
    lemma_not_suffix(s, "(os error 2)"@, "No such file or directory"@);
    lemma_not_suffix(s, "(os error 13)"@, "Permission denied"@);
    lemma_not_suffix(s, "(os error 17)"@, "File exists"@);
    lemma_not_suffix(s, "(os error 20)"@, "Not a directory"@);
    lemma_not_suffix(s, "(os error 21)"@, "Is a directory"@);
    lemma_not_suffix(s, "(os error 39)"@, "Directory not empty"@);
}

proof fn lemma_not_suffix(s: Seq<char>, marker: Seq<char>, wording: Seq<char>)
    requires
        is_known(marker, wording),
        forall|m: Seq<char>, w: Seq<char>| #[trigger] is_known(m, w) ==> !m.is_suffix_of(s),
    ensures
        !ends_in(s, marker),
{
    if ends_in(s, marker) {
        let i = s.len() - marker.len();
        assert(s.subrange(i, i + marker.len()) =~= s.subrange(i, s.len() as int));
        assert(marker.is_suffix_of(s));
    }
}

} // verus!
