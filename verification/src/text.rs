//! Text as sequences of characters: searching, trimming, splitting, joining,
//! and the decimal form of integers.

use vstd::prelude::*;
use vstd::string::*;

verus! {

// ---------------------------------------------------------------------------
// Trusted parts of std
// ---------------------------------------------------------------------------

/// `String::push` appends the given character to the end of the string.
pub assume_specification[ String::push ](s: &mut String, c: char)
    ensures
        final(s)@ == old(s)@.push(c),
;

/// What `format!("{:?}", s)` gives for a string slice: the text in double
/// quotes, with the characters that std escapes written as escapes.
pub uninterp spec fn debug_form(s: Seq<char>) -> Seq<char>;

/// The `Debug` form of a string slice, as std's `impl Debug for str` writes it.
/// The contract names the result and says nothing of which characters are escaped.
#[verifier::external_body]
pub(crate) fn debug_text(s: &str) -> (r: String)
    ensures
        r@ == debug_form(s@),
{
    format!("{:?}", s)
}

// ---------------------------------------------------------------------------
// Characters and strings
// ---------------------------------------------------------------------------

/// The characters of `s`, in order.
pub fn chars_of(s: &str) -> (r: Vec<char>)
    ensures
        r@ == s@,
{
    let mut out: Vec<char> = Vec::new();
    for c in it: s.chars()
        invariant
            it.seq() == s@,
            out@ == it.seq().take(it.index() as int),
    {
        out.push(c);
    }
    out
}

/// The string made of `cs[from..to]`.
pub fn text_of(cs: &[char], from: usize, to: usize) -> (r: String)
    requires
        from <= to <= cs@.len(),
    ensures
        r@ == cs@.subrange(from as int, to as int),
{
    let mut out = String::new();
    for i in from..to
        invariant
            from <= to <= cs@.len(),
            out@ == cs@.subrange(from as int, i as int),
    {
        out.push(cs[i]);
    }
    out
}

/// A string with the same text as `s`.
pub fn owned(s: &str) -> (r: String)
    ensures
        r@ == s@,
{
    s.to_owned()
}

/// Whether two texts are the same.
pub fn same_text(a: &str, b: &str) -> (r: bool)
    ensures
        r == (a@ == b@),
{
    let x = a.to_owned();
    let y = b.to_owned();
    x == y
}

// ---------------------------------------------------------------------------
// Searching
// ---------------------------------------------------------------------------

/// `p` stands in `s` at position `i`.
pub open spec fn occurs_at(s: Seq<char>, p: Seq<char>, i: int) -> bool {
    &&& 0 <= i
    &&& i + p.len() <= s.len()
    &&& s.subrange(i, i + p.len()) == p
}

/// `p` stands somewhere in `s`.
pub open spec fn contains(s: Seq<char>, p: Seq<char>) -> bool {
    exists|i: int| occurs_at(s, p, i)
}

/// `i` is the first position at which `p` stands in `s`.
pub open spec fn first_at(s: Seq<char>, p: Seq<char>, i: int) -> bool {
    &&& occurs_at(s, p, i)
    &&& forall|j: int| 0 <= j < i ==> !occurs_at(s, p, j)
}

/// `i` is the last position at which `p` stands in `s`.
pub open spec fn last_at(s: Seq<char>, p: Seq<char>, i: int) -> bool {
    &&& occurs_at(s, p, i)
    &&& forall|j: int| i < j ==> !occurs_at(s, p, j)
}

/// The first position of `p` in `s`, if there is one.
pub open spec fn find(s: Seq<char>, p: Seq<char>) -> Option<int> {
    if contains(s, p) {
        Some(choose|i: int| first_at(s, p, i))
    } else {
        None
    }
}

/// The last position of `p` in `s`, if there is one.
pub open spec fn rfind(s: Seq<char>, p: Seq<char>) -> Option<int> {
    if contains(s, p) {
        Some(choose|i: int| last_at(s, p, i))
    } else {
        None
    }
}

/// A position is the first one exactly when `find` gives it.
pub proof fn lemma_find_is(s: Seq<char>, p: Seq<char>, i: int)
    requires
        first_at(s, p, i),
    ensures
        find(s, p) == Some(i),
{
    assert(occurs_at(s, p, i));
    let k = choose|k: int| first_at(s, p, k);
    assert(first_at(s, p, k));
    assert(k == i) by {
        if k < i {
            assert(!occurs_at(s, p, k));
        }
        if i < k {
            assert(!occurs_at(s, p, i));
        }
    }
}

/// A position is the last one exactly when `rfind` gives it.
pub proof fn lemma_rfind_is(s: Seq<char>, p: Seq<char>, i: int)
    requires
        last_at(s, p, i),
    ensures
        rfind(s, p) == Some(i),
{
    assert(occurs_at(s, p, i));
    let k = choose|k: int| last_at(s, p, k);
    assert(last_at(s, p, k));
    assert(k == i) by {
        if k < i {
            assert(!occurs_at(s, p, i));
        }
        if i < k {
            assert(!occurs_at(s, p, k));
        }
    }
}

/// Where a text occurs at all, it has a first occurrence, and `find` gives it.
pub proof fn lemma_find_first(s: Seq<char>, p: Seq<char>)
    requires
        contains(s, p),
    ensures
        find(s, p) is Some,
        first_at(s, p, find(s, p)->0),
{
    let i = choose|i: int| occurs_at(s, p, i);
    lemma_first_below(s, p, i);
    let k = choose|k: int| 0 <= k <= i && first_at(s, p, k);
    lemma_find_is(s, p, k);
}

proof fn lemma_first_below(s: Seq<char>, p: Seq<char>, i: int)
    requires
        occurs_at(s, p, i),
    ensures
        exists|k: int| 0 <= k <= i && first_at(s, p, k),
    decreases i,
{
    if forall|j: int| 0 <= j < i ==> !occurs_at(s, p, j) {
        assert(first_at(s, p, i));
    } else {
        let j = choose|j: int| 0 <= j < i && occurs_at(s, p, j);
        lemma_first_below(s, p, j);
        let k = choose|k: int| 0 <= k <= j && first_at(s, p, k);
        assert(0 <= k <= i && first_at(s, p, k));
    }
}

/// Whether `p` stands in `s` at `i`.
pub fn is_at(s: &[char], p: &[char], i: usize) -> (r: bool)
    ensures
        r == occurs_at(s@, p@, i as int),
{
    if i > s.len() || p.len() > s.len() - i {
        return false;
    }
    let n: usize = s.len();
    for k in 0..p.len()
        invariant
            n == s@.len(),
            i + p@.len() <= n,
            forall|j: int| 0 <= j < k ==> s@[i + j] == p@[j],
    {
        if s[i + k] != p[k] {
            assert(s@.subrange(i as int, i + p@.len())[k as int] != p@[k as int]);
            return false;
        }
    }
    assert(s@.subrange(i as int, i + p@.len()) =~= p@);
    true
}

/// The first position of `p` in `s`.
pub fn find_chars(s: &[char], p: &[char]) -> (r: Option<usize>)
    ensures
        match r {
            Some(i) => find(s@, p@) == Some(i as int) && first_at(s@, p@, i as int),
            None => find(s@, p@) is None,
        },
{
    if p.len() > s.len() {
        assert forall|i: int| !occurs_at(s@, p@, i) by {}
        return None;
    }
    let last: usize = s.len() - p.len();
    let mut i: usize = 0;
    while i <= last
        invariant
            last + p@.len() == s@.len(),
            i <= last,
            forall|j: int| 0 <= j < i ==> !occurs_at(s@, p@, j),
        decreases last + 1 - i,
    {
        if is_at(s, p, i) {
            proof {
                lemma_find_is(s@, p@, i as int);
            }
            return Some(i);
        }
        if i == last {
            assert forall|j: int| !occurs_at(s@, p@, j) by {}
            return None;
        }
        i += 1;
    }
    None
}

/// The last position of `p` in `s`.
pub fn rfind_chars(s: &[char], p: &[char]) -> (r: Option<usize>)
    ensures
        match r {
            Some(i) => rfind(s@, p@) == Some(i as int) && last_at(s@, p@, i as int),
            None => rfind(s@, p@) is None,
        },
{
    if p.len() > s.len() {
        assert forall|i: int| !occurs_at(s@, p@, i) by {}
        return None;
    }
    let last: usize = s.len() - p.len();
    let mut k: usize = 0;
    while k <= last
        invariant
            last + p@.len() == s@.len(),
            k <= last,
            forall|j: int| last - k < j ==> !occurs_at(s@, p@, j),
        decreases last + 1 - k,
    {
        let i: usize = last - k;
        if is_at(s, p, i) {
            proof {
                lemma_rfind_is(s@, p@, i as int);
            }
            return Some(i);
        }
        if k == last {
            assert forall|j: int| !occurs_at(s@, p@, j) by {}
            return None;
        }
        k += 1;
    }
    None
}

// ---------------------------------------------------------------------------
// White space
// ---------------------------------------------------------------------------

/// The characters with the Unicode property `White_Space`.
pub open spec fn is_white(c: char) -> bool {
    ||| '\u{9}' <= c <= '\u{d}'
    ||| c == ' '
    ||| c == '\u{85}'
    ||| c == '\u{a0}'
    ||| c == '\u{1680}'
    ||| '\u{2000}' <= c <= '\u{200a}'
    ||| c == '\u{2028}'
    ||| c == '\u{2029}'
    ||| c == '\u{202f}'
    ||| c == '\u{205f}'
    ||| c == '\u{3000}'
}

/// `s` without the white space at its start.
pub open spec fn trim_start(s: Seq<char>) -> Seq<char>
    decreases s.len(),
{
    if s.len() > 0 && is_white(s[0]) {
        trim_start(s.drop_first())
    } else {
        s
    }
}

/// `s` without the white space at its end.
pub open spec fn trim_end(s: Seq<char>) -> Seq<char>
    decreases s.len(),
{
    if s.len() > 0 && is_white(s.last()) {
        trim_end(s.drop_last())
    } else {
        s
    }
}

/// `s` without the white space at both ends.
pub open spec fn trim(s: Seq<char>) -> Seq<char> {
    trim_end(trim_start(s))
}

/// Whether `c` is white space.
pub fn is_white_space(c: char) -> (r: bool)
    ensures
        r == is_white(c),
{
    ('\u{9}' <= c && c <= '\u{d}') || c == ' ' || c == '\u{85}' || c == '\u{a0}' || c == '\u{1680}' || (
    '\u{2000}' <= c && c <= '\u{200a}') || c == '\u{2028}' || c == '\u{2029}' || c == '\u{202f}' || c
        == '\u{205f}' || c == '\u{3000}'
}

/// The bounds of `s[from..to]` without the white space at its two ends.
pub fn trim_bounds(s: &[char], from: usize, to: usize) -> (r: (usize, usize))
    requires
        from <= to <= s@.len(),
    ensures
        from <= r.0 <= r.1 <= to,
        s@.subrange(r.0 as int, r.1 as int) == trim(s@.subrange(from as int, to as int)),
{
    let mut a: usize = from;
    let ghost whole = s@.subrange(from as int, to as int);
    while a < to && is_white_space(s[a])
        invariant
            from <= a <= to <= s@.len(),
            trim_start(whole) == trim_start(s@.subrange(a as int, to as int)),
        decreases to - a,
    {
        assert(s@.subrange(a as int, to as int).drop_first() =~= s@.subrange(a + 1, to as int));
        a += 1;
    }
    let ghost mid = s@.subrange(a as int, to as int);
    assert(trim_start(whole) == mid);
    let mut b: usize = to;
    while b > a && is_white_space(s[b - 1])
        invariant
            from <= a <= b <= to <= s@.len(),
            trim_end(mid) == trim_end(s@.subrange(a as int, b as int)),
        decreases b,
    {
        assert(s@.subrange(a as int, b as int).drop_last() =~= s@.subrange(a as int, b - 1));
        b -= 1;
    }
    (a, b)
}

/// Every character is white space.
pub open spec fn all_white(s: Seq<char>) -> bool {
    forall|i: int| 0 <= i < s.len() ==> is_white(#[trigger] s[i])
}

proof fn lemma_trim_start_of_white(before: Seq<char>, s: Seq<char>)
    requires
        all_white(before),
    ensures
        trim_start(before + s) == trim_start(s),
    decreases before.len(),
{
    if before.len() == 0 {
        assert(before + s =~= s);
    } else {
        let rest = before.drop_first();
        assert((before + s)[0] == before[0]);
        assert((before + s).drop_first() =~= rest + s);
        assert forall|i: int| 0 <= i < rest.len() implies is_white(#[trigger] rest[i]) by {
            assert(rest[i] == before[i + 1]);
        }
        lemma_trim_start_of_white(rest, s);
    }
}

proof fn lemma_trim_end_of_white(s: Seq<char>, after: Seq<char>)
    requires
        all_white(after),
    ensures
        trim_end(s + after) == trim_end(s),
    decreases after.len(),
{
    if after.len() == 0 {
        assert(s + after =~= s);
    } else {
        let rest = after.drop_last();
        assert((s + after).last() == after[after.len() - 1]);
        assert((s + after).drop_last() =~= s + rest);
        assert forall|i: int| 0 <= i < rest.len() implies is_white(#[trigger] rest[i]) by {
            assert(rest[i] == after[i]);
        }
        lemma_trim_end_of_white(s, rest);
    }
}

proof fn lemma_trim_start_before_white(s: Seq<char>, after: Seq<char>)
    requires
        all_white(after),
    ensures
        trim_end(trim_start(s + after)) == trim_end(trim_start(s)),
    decreases s.len(),
{
    if s.len() == 0 {
        assert(s + after =~= after + s);
        lemma_trim_start_of_white(after, s);
    } else if is_white(s[0]) {
        assert((s + after).drop_first() =~= s.drop_first() + after);
        lemma_trim_start_before_white(s.drop_first(), after);
    } else {
        lemma_trim_end_of_white(s, after);
    }
}

/// White space around a text is trimmed away.
pub proof fn lemma_trim_around(before: Seq<char>, s: Seq<char>, after: Seq<char>)
    requires
        all_white(before),
        all_white(after),
    ensures
        trim(before + s + after) == trim(s),
{
    assert(before + s + after =~= before + (s + after));
    lemma_trim_start_of_white(before, s + after);
    lemma_trim_start_before_white(s, after);
}

// ---------------------------------------------------------------------------
// Prefixes, lines and words
// ---------------------------------------------------------------------------

/// The position of the first `c` in `s`, or the length of `s`.
pub open spec fn index_or_len(s: Seq<char>, c: char) -> int
    decreases s.len(),
{
    if s.len() == 0 || s[0] == c {
        0
    } else {
        1 + index_or_len(s.drop_first(), c)
    }
}

/// The first `c` is where `index_or_len` says, and there is none before it.
pub proof fn lemma_index_or_len(s: Seq<char>, c: char)
    ensures
        0 <= index_or_len(s, c) <= s.len(),
        forall|j: int| 0 <= j < index_or_len(s, c) ==> s[j] != c,
        index_or_len(s, c) < s.len() ==> s[index_or_len(s, c)] == c,
    decreases s.len(),
{
    if s.len() > 0 && s[0] != c {
        lemma_index_or_len(s.drop_first(), c);
        let k = index_or_len(s.drop_first(), c);
        assert forall|j: int| 0 <= j < 1 + k implies s[j] != c by {
            if j > 0 {
                assert(s[j] == s.drop_first()[j - 1]);
            }
        }
        if 1 + k < s.len() {
            assert(s[1 + k] == s.drop_first()[k]);
        }
    }
}

/// A position before which there is no `c`, and at which there is one or the end,
/// is what `index_or_len` gives.
pub proof fn lemma_index_or_len_is(s: Seq<char>, c: char, i: int)
    requires
        0 <= i <= s.len(),
        forall|j: int| 0 <= j < i ==> s[j] != c,
        i < s.len() ==> s[i] == c,
    ensures
        index_or_len(s, c) == i,
{
    lemma_index_or_len(s, c);
}

/// A line that a line feed ended, without the carriage return before it.
pub open spec fn without_cr(line: Seq<char>) -> Seq<char> {
    if line.len() > 0 && line.last() == '\r' {
        line.drop_last()
    } else {
        line
    }
}

/// The lines of `s`: each ends at a line feed, with or without a carriage
/// return before it, or at the end of `s`. An empty rest is not a line.
pub open spec fn lines(s: Seq<char>) -> Seq<Seq<char>>
    decreases s.len(),
{
    if s.len() == 0 {
        Seq::empty()
    } else {
        let i = index_or_len(s, '\n');
        if i < 0 || i >= s.len() {
            seq![s]
        } else {
            seq![without_cr(s.take(i))] + lines(s.skip(i + 1))
        }
    }
}

/// The first word of `s` in the sense of `split_whitespace`.
pub open spec fn first_word(s: Seq<char>) -> Option<Seq<char>> {
    let t = trim_start(s);
    if t.len() == 0 {
        None
    } else {
        Some(word_prefix(t))
    }
}

/// The longest prefix of `s` without white space.
pub open spec fn word_prefix(s: Seq<char>) -> Seq<char>
    decreases s.len(),
{
    if s.len() == 0 || is_white(s[0]) {
        Seq::empty()
    } else {
        seq![s[0]] + word_prefix(s.drop_first())
    }
}

/// The first `c` in `s[from..]`, or the length of `s`.
pub fn index_from(s: &[char], c: char, from: usize) -> (r: usize)
    requires
        from <= s@.len(),
    ensures
        from <= r <= s@.len(),
        r - from == index_or_len(s@.skip(from as int), c),
        forall|j: int| from <= j < r ==> s@[j] != c,
        r < s@.len() ==> s@[r as int] == c,
{
    let mut i: usize = from;
    while i < s.len() && s[i] != c
        invariant
            from <= i <= s@.len(),
            forall|j: int| from <= j < i ==> s@[j] != c,
        decreases s@.len() - i,
    {
        i += 1;
    }
    proof {
        lemma_index_or_len_is(s@.skip(from as int), c, i - from);
    }
    i
}

/// The bounds of the lines of `s`.
pub fn line_bounds(s: &[char]) -> (r: Vec<(usize, usize)>)
    ensures
        forall|i: int| 0 <= i < r@.len() ==> (#[trigger] r@[i]).0 <= r@[i].1 <= s@.len(),
        r@.map_values(|b: (usize, usize)| s@.subrange(b.0 as int, b.1 as int)) == lines(s@),
{
    let mut out: Vec<(usize, usize)> = Vec::new();
    let mut at: usize = 0;
    let ghost text = |b: (usize, usize)| s@.subrange(b.0 as int, b.1 as int);
    assert(s@.skip(0) =~= s@);
    while at < s.len()
        invariant
            at <= s@.len(),
            text == (|b: (usize, usize)| s@.subrange(b.0 as int, b.1 as int)),
            forall|i: int| 0 <= i < out@.len() ==> (#[trigger] out@[i]).0 <= out@[i].1 <= s@.len(),
            out@.map_values(text) + lines(s@.skip(at as int)) == lines(s@),
        decreases s@.len() - at,
    {
        let end = index_from(s, '\n', at);
        let ghost rest = s@.skip(at as int);
        let ghost before = out@;
        if end == s.len() {
            out.push((at, end));
            proof {
                assert(s@.subrange(at as int, end as int) =~= rest);
                assert(lines(rest) =~= seq![rest]);
                assert(s@.skip(end as int) =~= Seq::<char>::empty());
                assert(lines(s@.skip(end as int)) =~= Seq::<Seq<char>>::empty());
                assert(out@.map_values(text) =~= before.map_values(text) + seq![rest]);
                assert(out@.map_values(text) + lines(s@.skip(end as int)) =~= before.map_values(
                    text,
                ) + lines(rest));
            }
            at = end;
        } else {
            let stop: usize = if end > at && s[end - 1] == '\r' {
                end - 1
            } else {
                end
            };
            out.push((at, stop));
            proof {
                let line = rest.take(end - at);
                assert(line =~= s@.subrange(at as int, end as int));
                assert(s@.subrange(at as int, stop as int) =~= without_cr(line));
                assert(rest.skip(end - at + 1) =~= s@.skip(end + 1));
                assert(out@.map_values(text) =~= before.map_values(text) + seq![without_cr(line)]);
                assert(lines(rest) == seq![without_cr(line)] + lines(s@.skip(end + 1)));
                assert(out@.map_values(text) + lines(s@.skip(end + 1)) =~= before.map_values(text)
                    + lines(rest));
            }
            at = end + 1;
        }
    }
    proof {
        assert(s@.skip(at as int) =~= Seq::<char>::empty());
        assert(lines(s@.skip(at as int)) =~= Seq::<Seq<char>>::empty());
        assert(out@.map_values(text) =~= lines(s@));
    }
    out
}

/// The bounds of the first word of `s[from..to]`.
pub fn first_word_bounds(s: &[char], from: usize, to: usize) -> (r: Option<(usize, usize)>)
    requires
        from <= to <= s@.len(),
    ensures
        match r {
            Some((a, b)) => {
                &&& from <= a <= b <= to
                &&& first_word(s@.subrange(from as int, to as int)) == Some(
                    s@.subrange(a as int, b as int),
                )
            },
            None => first_word(s@.subrange(from as int, to as int)) is None,
        },
{
    let mut a: usize = from;
    let ghost whole = s@.subrange(from as int, to as int);
    while a < to && is_white_space(s[a])
        invariant
            from <= a <= to <= s@.len(),
            trim_start(whole) == trim_start(s@.subrange(a as int, to as int)),
        decreases to - a,
    {
        assert(s@.subrange(a as int, to as int).drop_first() =~= s@.subrange(a + 1, to as int));
        a += 1;
    }
    if a == to {
        return None;
    }
    let ghost t = s@.subrange(a as int, to as int);
    assert(trim_start(whole) == t);
    let mut b: usize = a;
    assert(s@.subrange(a as int, a as int) + word_prefix(t) =~= word_prefix(t));
    while b < to && !is_white_space(s[b])
        invariant
            from <= a <= b <= to <= s@.len(),
            s@.subrange(a as int, b as int) + word_prefix(s@.subrange(b as int, to as int))
                == word_prefix(t),
        decreases to - b,
    {
        proof {
            let rest = s@.subrange(b as int, to as int);
            assert(rest.drop_first() =~= s@.subrange(b + 1, to as int));
            assert(s@.subrange(a as int, b + 1) + word_prefix(rest.drop_first()) =~= s@.subrange(
                a as int,
                b as int,
            ) + word_prefix(rest));
        }
        b += 1;
    }
    assert(s@.subrange(a as int, b as int) + word_prefix(s@.subrange(b as int, to as int))
        =~= s@.subrange(a as int, b as int));
    Some((a, b))
}

// ---------------------------------------------------------------------------
// Joining
// ---------------------------------------------------------------------------

/// The texts of a list of strings.
pub open spec fn texts(list: Seq<String>) -> Seq<Seq<char>> {
    list.map_values(|s: String| s@)
}

/// The texts of `list`, with `sep` between each two.
pub open spec fn joined(list: Seq<Seq<char>>, sep: Seq<char>) -> Seq<char>
    decreases list.len(),
{
    if list.len() == 0 {
        Seq::empty()
    } else if list.len() == 1 {
        list[0]
    } else {
        joined(list.drop_last(), sep) + sep + list.last()
    }
}

/// The strings of `list`, with `sep` between each two.
pub fn join(list: &[String], sep: &str) -> (r: String)
    ensures
        r@ == joined(texts(list@), sep@),
{
    let mut out = String::new();
    let ghost all = texts(list@);
    for i in 0..list.len()
        invariant
            all == texts(list@),
            out@ == joined(all.take(i as int), sep@),
    {
        let ghost before = out@;
        if i > 0 {
            out.append(sep);
        }
        out.append(list[i].as_str());
        proof {
            let next = all.take(i + 1);
            assert(next.drop_last() =~= all.take(i as int));
            assert(next.last() == list@[i as int]@);
            if i == 0 {
                assert(out@ =~= next[0]);
            } else {
                assert(out@ =~= before + sep@ + next.last());
            }
        }
    }
    assert(all.take(list@.len() as int) =~= all);
    out
}

// ---------------------------------------------------------------------------
// Decimal integers
// ---------------------------------------------------------------------------

/// The digit `0` to `9` with value `d`.
pub open spec fn digit(d: nat) -> char {
    (d + 48) as char
}

/// The decimal form of a natural number.
pub open spec fn decimal(n: nat) -> Seq<char>
    decreases n,
{
    if n < 10 {
        seq![digit(n)]
    } else {
        decimal(n / 10).push(digit(n % 10))
    }
}

/// The decimal form of an integer.
pub open spec fn decimal_int(n: int) -> Seq<char> {
    if n < 0 {
        seq!['-'] + decimal((-n) as nat)
    } else {
        decimal(n as nat)
    }
}

fn push_decimal(out: &mut String, n: u64)
    ensures
        final(out)@ == old(out)@ + decimal(n as nat),
    decreases n,
{
    let ghost before = out@;
    if n >= 10 {
        push_decimal(out, n / 10);
    }
    let d: u8 = (n % 10) as u8;
    out.push((d + 48) as char);
    assert(out@ =~= before + decimal(n as nat));
}

/// The decimal form of `n`.
pub fn decimal_of(n: u64) -> (r: String)
    ensures
        r@ == decimal(n as nat),
{
    let mut out = String::new();
    push_decimal(&mut out, n);
    assert(out@ =~= decimal(n as nat));
    out
}

/// The decimal form of `n`, with a sign where it is negative.
pub fn decimal_of_i32(n: i32) -> (r: String)
    ensures
        r@ == decimal_int(n as int),
{
    let mut out = String::new();
    if n < 0 {
        out.push('-');
        push_decimal(&mut out, (-(n as i64)) as u64);
    } else {
        push_decimal(&mut out, n as u64);
    }
    assert(out@ =~= decimal_int(n as int));
    out
}

/// Why a text is not an unsigned 64-bit integer.
#[derive(Clone, Copy, Debug, PartialEq, Eq, Structural)]
pub enum IntError {
    Empty,
    InvalidDigit,
    Overflow,
}

impl IntError {
    /// The wording for this error.
    pub open spec fn wording(self) -> Seq<char> {
        match self {
            IntError::Empty => "cannot parse integer from empty string"@,
            IntError::InvalidDigit => "invalid digit found in string"@,
            IntError::Overflow => "number too large to fit in target type"@,
        }
    }

    /// The wording for this error.
    pub fn message(&self) -> (r: String)
        ensures
            r@ == self.wording(),
    {
        match self {
            IntError::Empty => owned("cannot parse integer from empty string"),
            IntError::InvalidDigit => owned("invalid digit found in string"),
            IntError::Overflow => owned("number too large to fit in target type"),
        }
    }
}

/// The value of a run of digits, read from the left. The first character that
/// is no digit, or that takes the value past the largest `u64`, is the error.
pub open spec fn digits_value(s: Seq<char>) -> Result<nat, IntError>
    decreases s.len(),
{
    if s.len() == 0 {
        Ok(0)
    } else {
        match digits_value(s.drop_last()) {
            Err(e) => Err(e),
            Ok(n) => if !('0' <= s.last() <= '9') {
                Err(IntError::InvalidDigit)
            } else if n * 10 + (s.last() as nat - 48) > u64::MAX {
                Err(IntError::Overflow)
            } else {
                Ok((n * 10 + (s.last() as nat - 48)) as nat)
            },
        }
    }
}

/// The unsigned 64-bit integer that `s` writes: digits, with an optional `+`.
pub open spec fn u64_value(s: Seq<char>) -> Result<nat, IntError> {
    if s.len() == 0 {
        Err(IntError::Empty)
    } else if s.len() == 1 && (s[0] == '+' || s[0] == '-') {
        Err(IntError::InvalidDigit)
    } else if s[0] == '+' {
        digits_value(s.drop_first())
    } else {
        digits_value(s)
    }
}

proof fn lemma_digits_prefix_error(s: Seq<char>, n: int)
    requires
        0 <= n <= s.len(),
        digits_value(s.take(n)) is Err,
    ensures
        digits_value(s) == digits_value(s.take(n)),
    decreases s.len() - n,
{
    if n == s.len() {
        assert(s.take(n) =~= s);
    } else {
        assert(s.take(n + 1).drop_last() =~= s.take(n));
        lemma_digits_prefix_error(s, n + 1);
    }
}

/// The decimal form of a number is digits.
pub proof fn lemma_decimal_digits(n: nat)
    ensures
        decimal(n).len() > 0,
        forall|i: int| 0 <= i < decimal(n).len() ==> '0' <= #[trigger] decimal(n)[i] <= '9',
    decreases n,
{
    if n >= 10 {
        lemma_decimal_digits(n / 10);
    }
}

proof fn lemma_decimal_digits_value(n: nat)
    requires
        n <= u64::MAX,
    ensures
        digits_value(decimal(n)) == Ok::<nat, IntError>(n),
    decreases n,
{
    let s = decimal(n);
    if n < 10 {
        assert(s.drop_last() =~= Seq::empty());
        assert(digits_value(s.drop_last()) == Ok::<nat, IntError>(0));
    } else {
        lemma_decimal_digits_value(n / 10);
        assert(s.drop_last() =~= decimal(n / 10));
    }
}

/// The decimal form of a number that fits is read back as that number.
pub proof fn lemma_decimal_value(n: u64)
    ensures
        u64_value(decimal(n as nat)) == Ok::<nat, IntError>(n as nat),
{
    lemma_decimal_digits(n as nat);
    lemma_decimal_digits_value(n as nat);
    assert('0' <= decimal(n as nat)[0] <= '9');
}

/// Reads `s[from..to]` as an unsigned 64-bit integer.
pub fn parse_u64(s: &[char], from: usize, to: usize) -> (r: Result<u64, IntError>)
    requires
        from <= to <= s@.len(),
    ensures
        match r {
            Ok(n) => u64_value(s@.subrange(from as int, to as int)) == Ok::<nat, IntError>(n as nat),
            Err(e) => u64_value(s@.subrange(from as int, to as int)) == Err::<nat, IntError>(e),
        },
{
    let ghost whole = s@.subrange(from as int, to as int);
    if from == to {
        return Err(IntError::Empty);
    }
    if to - from == 1 && (s[from] == '+' || s[from] == '-') {
        return Err(IntError::InvalidDigit);
    }
    let first: usize = if s[from] == '+' {
        from + 1
    } else {
        from
    };
    let ghost body = s@.subrange(first as int, to as int);
    assert(first > from ==> whole.drop_first() =~= body);
    let mut n: u64 = 0;
    for i in first..to
        invariant
            from <= first <= to <= s@.len(),
            body == s@.subrange(first as int, to as int),
            u64_value(whole) == digits_value(body),
            whole == s@.subrange(from as int, to as int),
            digits_value(body.take(i - first)) == Ok::<nat, IntError>(n as nat),
    {
        let c = s[i];
        let ghost k = i - first;
        assert(body.take(k + 1).drop_last() =~= body.take(k));
        assert(body.take(k + 1).last() == c);
        if c < '0' || c > '9' {
            proof {
                lemma_digits_prefix_error(body, k + 1);
            }
            return Err(IntError::InvalidDigit);
        }
        let d: u64 = (c as u64) - 48;
        if n > u64::MAX / 10 || n * 10 > u64::MAX - d {
            proof {
                lemma_digits_prefix_error(body, k + 1);
            }
            return Err(IntError::Overflow);
        }
        n = n * 10 + d;
    }
    assert(body.take(to - first) =~= body);
    Ok(n)
}

// ---------------------------------------------------------------------------
// Laws
// ---------------------------------------------------------------------------

/// The characters of `p` are those of `s` from `i` on.
pub open spec fn reads_at(s: Seq<char>, p: Seq<char>, i: int) -> bool {
    0 <= i && i + p.len() <= s.len() && forall|k: int|
        0 <= k < p.len() ==> s[i + k] == #[trigger] p[k]
}

proof fn lemma_reads_at(s: Seq<char>, p: Seq<char>, i: int)
    ensures
        reads_at(s, p, i) == occurs_at(s, p, i),
{
    if reads_at(s, p, i) {
        assert(s.subrange(i, i + p.len()) =~= p);
    }
    if occurs_at(s, p, i) {
        assert forall|k: int| 0 <= k < p.len() implies s[i + k] == #[trigger] p[k] by {
            assert(s.subrange(i, i + p.len())[k] == p[k]);
        }
    }
}

/// A text is found where it stands first: at a place with its characters, before
/// which there is no such place.
pub proof fn a_text_is_found_where_it_stands_first(s: Seq<char>, p: Seq<char>, i: int)
    requires
        reads_at(s, p, i),
        forall|j: int| 0 <= j < i ==> !reads_at(s, p, j),
    ensures
        find(s, p) == Some(i),
{
    lemma_reads_at(s, p, i);
    assert forall|j: int| 0 <= j < i implies !occurs_at(s, p, j) by {
        lemma_reads_at(s, p, j);
    }
    lemma_find_is(s, p, i);
}

/// A text is found last where it stands, and behind which there is no such place.
pub proof fn a_text_is_found_where_it_stands_last(s: Seq<char>, p: Seq<char>, i: int)
    requires
        reads_at(s, p, i),
        forall|j: int| i < j ==> !reads_at(s, p, j),
    ensures
        rfind(s, p) == Some(i),
{
    lemma_reads_at(s, p, i);
    assert forall|j: int| i < j implies !occurs_at(s, p, j) by {
        lemma_reads_at(s, p, j);
    }
    lemma_rfind_is(s, p, i);
}

/// What stands nowhere is not found.
pub proof fn what_stands_nowhere_is_not_found(s: Seq<char>, p: Seq<char>)
    requires
        forall|j: int| !reads_at(s, p, j),
    ensures
        find(s, p) is None,
        rfind(s, p) is None,
{
    assert forall|j: int| !occurs_at(s, p, j) by {
        lemma_reads_at(s, p, j);
    }
}

/// White space, by code points: tab to carriage return, space, next line, no-break
/// space, and the spaces and separators of Unicode.
pub proof fn white_space_by_code_point(c: char)
    ensures
        is_white(c) <==> {
            let n = c as int;
            ||| 9 <= n <= 13
            ||| n == 32
            ||| n == 133
            ||| n == 160
            ||| n == 5760
            ||| 8192 <= n <= 8202
            ||| n == 8232
            ||| n == 8233
            ||| n == 8239
            ||| n == 8287
            ||| n == 12288
        },
{
}

proof fn lemma_trim_start_cut(s: Seq<char>) -> (a: int)
    ensures
        0 <= a <= s.len(),
        trim_start(s) == s.skip(a),
        all_white(s.take(a)),
        a < s.len() ==> !is_white(s[a]),
    decreases s.len(),
{
    if s.len() > 0 && is_white(s[0]) {
        let rest = s.drop_first();
        let b = lemma_trim_start_cut(rest);
        assert(rest.skip(b) =~= s.skip(b + 1));
        assert forall|i: int| 0 <= i < b + 1 implies is_white(#[trigger] s.take(b + 1)[i]) by {
            if i > 0 {
                assert(s.take(b + 1)[i] == rest.take(b)[i - 1]);
            }
        }
        b + 1
    } else {
        assert(s.skip(0) =~= s);
        0
    }
}

proof fn lemma_trim_end_cut(s: Seq<char>) -> (b: int)
    ensures
        0 <= b <= s.len(),
        trim_end(s) == s.take(b),
        all_white(s.skip(b)),
        b > 0 ==> !is_white(s[b - 1]),
    decreases s.len(),
{
    if s.len() > 0 && is_white(s.last()) {
        let rest = s.drop_last();
        let b = lemma_trim_end_cut(rest);
        assert(rest.take(b) =~= s.take(b));
        assert forall|i: int| 0 <= i < s.skip(b).len() implies is_white(#[trigger] s.skip(b)[i]) by {
            if i < rest.skip(b).len() {
                assert(s.skip(b)[i] == rest.skip(b)[i]);
            }
        }
        b
    } else {
        assert(s.take(s.len() as int) =~= s);
        s.len() as int
    }
}

/// Trimming takes the white space at both ends, and no more: what is left stands in
/// the text between white space, and neither begins nor ends with any.
pub proof fn trimming_takes_white_space_and_no_more(s: Seq<char>) -> (bounds: (int, int))
    ensures
        ({
            let (a, b) = bounds;
            &&& 0 <= a <= b <= s.len()
            &&& trim(s) == s.subrange(a, b)
            &&& forall|i: int| 0 <= i < a ==> is_white(#[trigger] s[i])
            &&& forall|i: int| b <= i < s.len() ==> is_white(#[trigger] s[i])
            &&& a < b ==> !is_white(s[a]) && !is_white(s[b - 1])
        }),
{
    let a = lemma_trim_start_cut(s);
    let mid = s.skip(a);
    let k = lemma_trim_end_cut(mid);
    let b = a + k;
    assert(mid.take(k) =~= s.subrange(a, b));
    assert forall|i: int| 0 <= i < a implies is_white(#[trigger] s[i]) by {
        assert(s.take(a)[i] == s[i]);
    }
    assert forall|i: int| b <= i < s.len() implies is_white(#[trigger] s[i]) by {
        assert(mid.skip(k)[i - b] == s[i]);
    }
    (a, b)
}

/// A line ends at its line feed, and a carriage return before that belongs to the
/// end.
pub proof fn a_line_ends_at_its_line_feed(line: Seq<char>, rest: Seq<char>)
    requires
        !line.contains('\n'),
    ensures
        line.len() == 0 || line.last() != '\r' ==> lines(line + seq!['\n'] + rest) == seq![line]
            + lines(rest),
        lines(line + seq!['\r', '\n'] + rest) == seq![line] + lines(rest),
{
    let one = line + seq!['\n'] + rest;
    let n = line.len() as int;
    assert forall|j: int| 0 <= j < n implies line[j] != '\n' by {
        assert(line.contains(line[j]));
    }
    lemma_index_or_len_is(one, '\n', n);
    assert(one.take(n) =~= line);
    assert(one.skip(n + 1) =~= rest);
    let two = line + seq!['\r', '\n'] + rest;
    lemma_index_or_len_is(two, '\n', n + 1);
    assert(two.take(n + 1) =~= line.push('\r'));
    assert(line.push('\r').drop_last() =~= line);
    assert(two.skip(n + 2) =~= rest);
}

/// What no line feed ends is a line too, unless it is empty.
pub proof fn the_rest_is_a_line(line: Seq<char>)
    requires
        !line.contains('\n'),
    ensures
        lines(line) == if line.len() == 0 {
            Seq::<Seq<char>>::empty()
        } else {
            seq![line]
        },
{
    assert forall|j: int| 0 <= j < line.len() implies line[j] != '\n' by {
        assert(line.contains(line[j]));
    }
    lemma_index_or_len_is(line, '\n', line.len() as int);
}

proof fn lemma_word_prefix(word: Seq<char>, after: Seq<char>)
    requires
        forall|i: int| 0 <= i < word.len() ==> !is_white(#[trigger] word[i]),
        after.len() == 0 || is_white(after[0]),
    ensures
        word_prefix(word + after) == word,
    decreases word.len(),
{
    if word.len() == 0 {
        assert(word + after =~= after);
        assert(word_prefix(after) =~= word);
    } else {
        let rest = word.drop_first();
        assert((word + after)[0] == word[0]);
        assert((word + after).drop_first() =~= rest + after);
        assert forall|i: int| 0 <= i < rest.len() implies !is_white(#[trigger] rest[i]) by {
            assert(rest[i] == word[i + 1]);
        }
        lemma_word_prefix(rest, after);
        assert(seq![word[0]] + rest =~= word);
    }
}

/// The first word is what stands before the next white space, that at the start
/// aside; white space alone has none.
pub proof fn the_first_word_ends_at_white_space(
    before: Seq<char>,
    word: Seq<char>,
    after: Seq<char>,
)
    requires
        all_white(before),
        forall|i: int| 0 <= i < word.len() ==> !is_white(#[trigger] word[i]),
        after.len() == 0 || is_white(after[0]),
    ensures
        word.len() > 0 ==> first_word(before + word + after) == Some(word),
        first_word(before) is None,
{
    lemma_trim_start_of_white(before, word + after);
    assert(before + word + after =~= before + (word + after));
    if word.len() > 0 {
        assert((word + after)[0] == word[0]);
        lemma_word_prefix(word, after);
    }
    lemma_trim_start_of_white(before, Seq::empty());
    assert(before + Seq::<char>::empty() =~= before);
}

/// Two lists that are joined are joined to one by the separator between them, and a
/// single text is joined to itself.
pub proof fn joining_goes_on_behind_the_separator(
    a: Seq<Seq<char>>,
    b: Seq<Seq<char>>,
    sep: Seq<char>,
)
    ensures
        a.len() > 0 && b.len() > 0 ==> joined(a + b, sep) == joined(a, sep) + sep + joined(b, sep),
        a.len() == 1 ==> joined(a, sep) == a[0],
        joined(Seq::empty(), sep) == Seq::<char>::empty(),
    decreases b.len(),
{
    if a.len() > 0 && b.len() > 0 {
        assert((a + b).drop_last() =~= a + b.drop_last());
        assert((a + b).last() == b.last());
        if b.len() == 1 {
            assert(a + b.drop_last() =~= a);
        } else {
            joining_goes_on_behind_the_separator(a, b.drop_last(), sep);
            assert(joined(a + b, sep) =~= joined(a, sep) + sep + joined(b, sep));
        }
    }
}

/// Every character is a digit.
pub open spec fn all_digits(s: Seq<char>) -> bool {
    forall|i: int| 0 <= i < s.len() ==> '0' <= #[trigger] s[i] <= '9'
}

/// The number that digits stand for by their places: each counts ten times as much as
/// in the place behind it.
pub open spec fn place_value(s: Seq<char>) -> int
    decreases s.len(),
{
    if s.len() == 0 {
        0
    } else {
        place_value(s.drop_last()) * 10 + (s.last() as int - '0' as int)
    }
}

/// The decimal form of a number is digits that stand for it, without a zero in front.
pub proof fn a_decimal_form_stands_for_its_number(n: nat)
    ensures
        all_digits(decimal(n)),
        place_value(decimal(n)) == n,
        decimal(n).len() > 0,
        n > 0 ==> decimal(n)[0] != '0',
        n == 0 ==> decimal(n).len() == 1,
    decreases n,
{
    lemma_decimal_digits(n);
    let s = decimal(n);
    if n < 10 {
        assert(s.drop_last() =~= Seq::empty());
        assert(place_value(s.drop_last()) == 0);
    } else {
        a_decimal_form_stands_for_its_number(n / 10);
        assert(s.drop_last() =~= decimal(n / 10));
        assert(s[0] == decimal(n / 10)[0]);
    }
}

/// The sign of a negative number stands before the digits of its amount.
pub proof fn a_negative_number_has_a_sign(n: nat)
    ensures
        n > 0 ==> decimal_int(-n) == seq!['-'] + decimal(n),
        decimal_int(n as int) == decimal(n),
{
}

proof fn lemma_digits_value_is(s: Seq<char>)
    requires
        all_digits(s),
    ensures
        place_value(s) >= 0,
        digits_value(s) == if place_value(s) <= u64::MAX {
            Ok::<nat, IntError>(place_value(s) as nat)
        } else {
            Err(IntError::Overflow)
        },
    decreases s.len(),
{
    if s.len() > 0 {
        let front = s.drop_last();
        assert forall|i: int| 0 <= i < front.len() implies '0' <= #[trigger] front[i] <= '9' by {
            assert(front[i] == s[i]);
        }
        lemma_digits_value_is(front);
        assert('0' <= s[s.len() - 1] <= '9');
    }
}

/// Digits are read as the number that they stand for, with or without a plus sign,
/// as long as it fits.
pub proof fn digits_are_read_by_their_places(s: Seq<char>)
    requires
        all_digits(s),
        s.len() > 0,
    ensures
        u64_value(s) == if place_value(s) <= u64::MAX {
            Ok::<nat, IntError>(place_value(s) as nat)
        } else {
            Err(IntError::Overflow)
        },
        u64_value(seq!['+'] + s) == u64_value(s),
{
    lemma_digits_value_is(s);
    assert('0' <= s[0] <= '9');
    assert((seq!['+'] + s).drop_first() =~= s);
}

/// Another character among the digits makes it no number, unless it is a plus sign in
/// front of them; where what stands before it would fit, it is what is complained of.
pub proof fn another_character_is_no_digit(front: Seq<char>, c: char, back: Seq<char>)
    requires
        all_digits(front),
        !('0' <= c <= '9'),
        front.len() > 0 || c != '+' || back.len() == 0,
    ensures
        u64_value(front + seq![c] + back) == if place_value(front) <= u64::MAX {
            Err::<nat, IntError>(IntError::InvalidDigit)
        } else {
            Err(IntError::Overflow)
        },
        u64_value(Seq::empty()) == Err::<nat, IntError>(IntError::Empty),
{
    let s = front + seq![c] + back;
    let n = front.len() as int;
    lemma_digits_value_is(front);
    assert(s.take(n) =~= front);
    assert(s.take(n + 1).drop_last() =~= front);
    assert(s.take(n + 1).last() == c);
    lemma_digits_prefix_error(s, n + 1);
    if n > 0 {
        assert('0' <= front[0] <= '9');
        assert(s[0] == front[0]);
    } else {
        assert(s[0] == c);
        assert(front =~= Seq::empty());
        assert(place_value(front) == 0);
    }
}

} // verus!
