//! Absolute host paths as lists of names, and the lexical rules for walking
//! from one path along a `/`-separated text to another.

use crate::text;
use crate::text::{chars_of, debug_text, text_of};
use vstd::prelude::*;
use vstd::string::*;
use vstd::utf8::*;

verus! {

/// The byte that separates the names of a path.
pub const SLASH: u8 = 47;

/// The byte `.`.
pub const DOT: u8 = 46;

/// The names on the way from the root directory to a file, outermost first.
pub type Names = Seq<Seq<u8>>;

/// What `String::from_utf8_lossy` gives for these bytes.
pub uninterp spec fn lossy_form(bytes: Seq<u8>) -> Seq<char>;

/// `String::from_utf8_lossy`: the text of a byte string, with a replacement
/// character for what is not UTF-8. The contract names the result, and says
/// that valid UTF-8 is decoded as it stands.
#[verifier::external_body]
pub(crate) fn lossy_text(bytes: &[u8]) -> (r: String)
    ensures
        r@ == lossy_form(bytes@),
        valid_utf8(bytes@) ==> r@ == decode_utf8(bytes@),
{
    String::from_utf8_lossy(bytes).into_owned()
}

/// `std::str::from_utf8`: the text of bytes that are UTF-8, and `None` for others.
#[verifier::external_body]
pub(crate) fn utf8_text(bytes: &[u8]) -> (r: Option<String>)
    ensures
        match r {
            Some(t) => valid_utf8(bytes@) && t@ == decode_utf8(bytes@),
            None => !valid_utf8(bytes@),
        },
{
    match std::str::from_utf8(bytes) {
        Ok(t) => Some(t.to_owned()),
        Err(_) => None,
    }
}

// ---------------------------------------------------------------------------
// Paths in error texts
// ---------------------------------------------------------------------------

/// How many bytes the character takes that `bytes` begin with; 0 where they begin
/// with none.
pub open spec fn char_width(bytes: Seq<u8>) -> int {
    if bytes.len() >= 1 && valid_utf8(bytes.take(1)) {
        1
    } else if bytes.len() >= 2 && valid_utf8(bytes.take(2)) {
        2
    } else if bytes.len() >= 3 && valid_utf8(bytes.take(3)) {
        3
    } else if bytes.len() >= 4 && valid_utf8(bytes.take(4)) {
        4
    } else {
        0
    }
}

/// A quoted text without its quotes.
pub open spec fn unquoted(s: Seq<char>) -> Seq<char> {
    if s.len() >= 2 {
        s.subrange(1, s.len() - 1)
    } else {
        Seq::empty()
    }
}

/// A character as it stands in error texts: as in the debug form of a text that is
/// just this character.
pub open spec fn char_escape(c: char) -> Seq<char> {
    unquoted(text::debug_form(seq![c]))
}

/// The hexadecimal digit with value `d`.
pub open spec fn hex_digit(d: u8) -> char {
    if d < 10 {
        (d + 48) as char
    } else {
        (d + 55) as char
    }
}

/// A byte that is part of no character, as it stands in error texts.
pub open spec fn byte_escape(b: u8) -> Seq<char> {
    seq!['\\', 'x', hex_digit(b / 16), hex_digit(b % 16)]
}

/// The characters of a path as they stand in error texts, and the bytes between
/// them that are part of no character.
pub open spec fn shown_inner(bytes: Seq<u8>) -> Seq<char>
    decreases bytes.len(),
{
    let w = char_width(bytes);
    if bytes.len() == 0 {
        Seq::empty()
    } else if w == 0 {
        byte_escape(bytes[0]) + shown_inner(bytes.skip(1))
    } else {
        char_escape(decode_utf8(bytes.take(w))[0]) + shown_inner(bytes.skip(w))
    }
}

/// A path as it stands in error texts: in double quotes.
pub open spec fn shown_form(bytes: Seq<u8>) -> Seq<char> {
    seq!['"'] + shown_inner(bytes) + seq!['"']
}

fn escape_char(c: char) -> (r: String)
    ensures
        r@ == char_escape(c),
{
    let mut one = String::new();
    one.push(c);
    assert(one@ =~= seq![c]);
    let cs = chars_of(debug_text(one.as_str()).as_str());
    if cs.len() >= 2 {
        text_of(&cs, 1, cs.len() - 1)
    } else {
        String::new()
    }
}

fn hex_char(d: u8) -> (r: char)
    requires
        d < 16,
    ensures
        r == hex_digit(d),
{
    if d < 10 {
        (d + 48) as char
    } else {
        (d + 55) as char
    }
}

/// The text of the `width` bytes from `from` on, if there are so many and they are
/// UTF-8.
fn text_between(bytes: &[u8], from: usize, width: usize) -> (r: Option<String>)
    requires
        from <= bytes@.len(),
    ensures
        match r {
            Some(t) => {
                &&& from + width <= bytes@.len()
                &&& valid_utf8(bytes@.skip(from as int).take(width as int))
                &&& t@ == decode_utf8(bytes@.skip(from as int).take(width as int))
            },
            None => from + width > bytes@.len() || !valid_utf8(
                bytes@.skip(from as int).take(width as int),
            ),
        },
{
    if width > bytes.len() - from {
        return None;
    }
    let part = vstd::slice::slice_subrange(bytes, from, from + width);
    assert(part@ =~= bytes@.skip(from as int).take(width as int));
    utf8_text(part)
}

/// The character that `bytes[from..]` begin with, and how many bytes it takes.
fn char_at(bytes: &[u8], from: usize) -> (r: Option<(char, usize)>)
    requires
        from < bytes@.len(),
    ensures
        ({
            let rest = bytes@.skip(from as int);
            match r {
                Some((c, w)) => w > 0 && w == char_width(rest) && w <= rest.len() && c
                    == decode_utf8(rest.take(w as int))[0],
                None => char_width(rest) == 0,
            }
        }),
{
    let ghost rest = bytes@.skip(from as int);
    let mut width: usize = 1;
    while width <= 4
        invariant
            from < bytes@.len(),
            rest == bytes@.skip(from as int),
            1 <= width <= 5,
            forall|k: int| 1 <= k < width && k <= rest.len() ==> !valid_utf8(#[trigger] rest.take(k)),
        decreases 5 - width,
    {
        if let Some(t) = text_between(bytes, from, width) {
            let cs = chars_of(t.as_str());
            proof {
                let front = rest.take(width as int);
                assert(decode_utf8(front).len() > 0);
                assert(width == char_width(rest));
            }
            return Some((cs[0], width));
        }
        width += 1;
    }
    None
}

/// A path as it stands in error texts.
pub fn shown_bytes(bytes: &[u8]) -> (r: String)
    ensures
        r@ == shown_form(bytes@),
{
    let mut out = String::new();
    out.push('"');
    let mut i: usize = 0;
    assert(bytes@.skip(0) =~= bytes@);
    while i < bytes.len()
        invariant
            i <= bytes@.len(),
            out@ + shown_inner(bytes@.skip(i as int)) == seq!['"'] + shown_inner(bytes@),
        decreases bytes@.len() - i,
    {
        let ghost rest = bytes@.skip(i as int);
        let ghost before = out@;
        match char_at(bytes, i) {
            Some((c, w)) => {
                out.append(escape_char(c).as_str());
                proof {
                    assert(rest.skip(w as int) =~= bytes@.skip(i + w));
                    assert(out@ + shown_inner(bytes@.skip(i + w)) =~= before + shown_inner(rest));
                }
                i += w;
            },
            None => {
                let b: u8 = bytes[i];
                out.push('\\');
                out.push('x');
                out.push(hex_char(b / 16));
                out.push(hex_char(b % 16));
                proof {
                    assert(rest[0] == b);
                    assert(rest.skip(1) =~= bytes@.skip(i + 1));
                    assert(out@ + shown_inner(bytes@.skip(i + 1)) =~= before + shown_inner(rest));
                }
                i += 1;
            },
        }
    }
    proof {
        assert(bytes@.skip(i as int) =~= Seq::empty());
        assert(out@ =~= seq!['"'] + shown_inner(bytes@));
    }
    out.push('"');
    assert(out@ =~= shown_form(bytes@));
    out
}

// ---------------------------------------------------------------------------
// Names
// ---------------------------------------------------------------------------

/// A name that a directory can hold: not empty, without a slash, and neither
/// `.` nor `..`.
pub open spec fn is_name(part: Seq<u8>) -> bool {
    &&& part.len() > 0
    &&& part != seq![DOT]
    &&& part != seq![DOT, DOT]
    &&& !part.contains(SLASH)
}

/// The pieces of `text` between its slashes, empty pieces included.
pub open spec fn pieces(text: Seq<u8>) -> Seq<Seq<u8>>
    decreases text.len(),
{
    if text.len() == 0 {
        seq![Seq::empty()]
    } else {
        let rest = pieces(text.drop_last());
        if text.last() == SLASH {
            rest.push(Seq::empty())
        } else {
            rest.update(rest.len() - 1, rest.last().push(text.last()))
        }
    }
}

/// One step of a walk: an empty piece or `.` stays, `..` goes up, anything else
/// goes down. There is no step up from the root directory.
pub open spec fn stepped(at: Names, piece: Seq<u8>) -> Option<Names> {
    if piece.len() == 0 || piece == seq![DOT] {
        Some(at)
    } else if piece == seq![DOT, DOT] {
        if at.len() == 0 {
            None
        } else {
            Some(at.drop_last())
        }
    } else {
        Some(at.push(piece))
    }
}

/// A piece that goes down, to the name that it is.
pub open spec fn goes_down(piece: Seq<u8>) -> bool {
    piece.len() > 0 && piece != seq![DOT] && piece != seq![DOT, DOT]
}

/// One step of a walk in which a step up from the root directory stays there.
pub open spec fn stepped_clamped(at: Names, piece: Seq<u8>) -> Names {
    match stepped(at, piece) {
        Some(n) => n,
        None => at,
    }
}

/// The walk from `at` along `list`; `None` where it would go above the root
/// directory.
pub open spec fn walked(at: Names, list: Seq<Seq<u8>>) -> Option<Names>
    decreases list.len(),
{
    if list.len() == 0 {
        Some(at)
    } else {
        match walked(at, list.drop_last()) {
            Some(n) => stepped(n, list.last()),
            None => None,
        }
    }
}

/// The walk from `at` along `list` in which a step up from the root directory
/// stays there.
pub open spec fn walked_clamped(at: Names, list: Seq<Seq<u8>>) -> Names
    decreases list.len(),
{
    if list.len() == 0 {
        at
    } else {
        stepped_clamped(walked_clamped(at, list.drop_last()), list.last())
    }
}

/// The bytes of the path with these names.
pub open spec fn path_bytes(names: Names) -> Seq<u8>
    decreases names.len(),
{
    if names.len() == 0 {
        seq![SLASH]
    } else if names.len() == 1 {
        seq![SLASH] + names[0]
    } else {
        path_bytes(names.drop_last()) + seq![SLASH] + names.last()
    }
}

/// Every name is one that a directory can hold.
pub open spec fn all_names(names: Names) -> bool {
    forall|i: int| 0 <= i < names.len() ==> is_name(#[trigger] names[i])
}

// ---------------------------------------------------------------------------
// Host paths
// ---------------------------------------------------------------------------

/// An absolute path on the host.
#[derive(Debug, Clone, PartialEq, Eq)]
pub struct HostPath {
    pub names: Vec<Vec<u8>>,
}

impl View for HostPath {
    type V = Names;

    open spec fn view(&self) -> Names {
        self.names@.map_values(|n: Vec<u8>| n@)
    }
}

/// A copy of a byte string.
pub fn copy_bytes(b: &[u8]) -> (r: Vec<u8>)
    ensures
        r@ == b@,
{
    let mut out: Vec<u8> = Vec::new();
    for i in 0..b.len()
        invariant
            out@ == b@.take(i as int),
    {
        out.push(b[i]);
    }
    assert(b@.take(b@.len() as int) =~= b@);
    out
}

/// Whether two byte strings are the same.
pub fn same_bytes(a: &[u8], b: &[u8]) -> (r: bool)
    ensures
        r == (a@ == b@),
{
    if a.len() != b.len() {
        return false;
    }
    for i in 0..a.len()
        invariant
            a@.len() == b@.len(),
            forall|j: int| 0 <= j < i ==> a@[j] == b@[j],
    {
        if a[i] != b[i] {
            return false;
        }
    }
    assert(a@ =~= b@);
    true
}

impl HostPath {
    /// Whether every name is one that a directory can hold.
    pub open spec fn wf(&self) -> bool {
        all_names(self@)
    }

    /// The root directory.
    pub fn root_dir() -> (r: HostPath)
        ensures
            r@ == Seq::<Seq<u8>>::empty(),
            r.wf(),
    {
        let r = HostPath { names: Vec::new() };
        assert(r@ =~= Seq::<Seq<u8>>::empty());
        r
    }

    /// The number of names.
    pub fn depth(&self) -> (r: usize)
        ensures
            r == self@.len(),
    {
        self.names.len()
    }

    /// The path with its first `n` names.
    pub fn prefix(&self, n: usize) -> (r: HostPath)
        requires
            n <= self@.len(),
        ensures
            r@ == self@.take(n as int),
    {
        let mut names: Vec<Vec<u8>> = Vec::new();
        for i in 0..n
            invariant
                n <= self@.len(),
                names@.map_values(|v: Vec<u8>| v@) == self@.take(i as int),
        {
            let ghost before = names@;
            names.push(copy_bytes(&self.names[i]));
            assert(names@.map_values(|v: Vec<u8>| v@) =~= before.map_values(|v: Vec<u8>| v@).push(
                self@[i as int],
            ));
            assert(self@.take(i + 1) =~= self@.take(i as int).push(self@[i as int]));
        }
        HostPath { names }
    }

    /// A copy of the path.
    pub fn copied(&self) -> (r: HostPath)
        ensures
            r@ == self@,
    {
        let r = self.prefix(self.names.len());
        assert(self@.take(self@.len() as int) =~= self@);
        r
    }

    /// Goes down to `name`.
    pub fn push(&mut self, name: &[u8])
        ensures
            final(self)@ == old(self)@.push(name@),
    {
        let ghost before = self@;
        self.names.push(copy_bytes(name));
        assert(self@ =~= before.push(name@));
    }

    /// Goes up, where there is a directory above, and says whether there is one.
    pub fn pop(&mut self) -> (r: bool)
        ensures
            r == (old(self)@.len() > 0),
            r ==> final(self)@ == old(self)@.drop_last(),
            !r ==> final(self)@ == old(self)@,
    {
        let ghost before = self@;
        match self.names.pop() {
            Some(_) => {
                assert(self@ =~= before.drop_last());
                true
            },
            None => false,
        }
    }

    /// Whether this path is `base` or lies below it.
    pub fn starts_with(&self, base: &HostPath) -> (r: bool)
        ensures
            r == base@.is_prefix_of(self@),
    {
        if base.names.len() > self.names.len() {
            return false;
        }
        for i in 0..base.names.len()
            invariant
                base@.len() <= self@.len(),
                forall|j: int| 0 <= j < i ==> base@[j] == self@[j],
        {
            if !same_bytes(&base.names[i], &self.names[i]) {
                proof {
                    assert(base@[i as int] != self@[i as int]);
                    if base@.is_prefix_of(self@) {
                        assert(self@.take(base@.len() as int)[i as int] == base@[i as int]);
                    }
                }
                return false;
            }
        }
        assert(self@.take(base@.len() as int) =~= base@);
        true
    }

    /// The bytes of the path.
    pub fn to_bytes(&self) -> (r: Vec<u8>)
        ensures
            r@ == path_bytes(self@),
    {
        let mut out: Vec<u8> = Vec::new();
        out.push(SLASH);
        let n = self.names.len();
        for i in 0..n
            invariant
                n == self@.len(),
                n == self.names@.len(),
                out@ == path_bytes(self@.take(i as int)),
        {
            let ghost before = out@;
            let ghost next = self@.take(i + 1);
            if i > 0 {
                out.push(SLASH);
            }
            let name = &self.names[i];
            let ghost mid = out@;
            for j in 0..name.len()
                invariant
                    out@ == mid + name@.take(j as int),
            {
                out.push(name[j]);
                assert(mid + name@.take(j + 1) =~= (mid + name@.take(j as int)).push(name@[j as int]));
            }
            proof {
                assert(name@.take(name@.len() as int) =~= name@);
                assert(next.drop_last() =~= self@.take(i as int));
                assert(next.last() == name@);
                if i == 0 {
                    assert(self@.take(0) =~= Seq::<Seq<u8>>::empty());
                    assert(out@ =~= seq![SLASH] + next[0]);
                } else {
                    assert(out@ =~= before + seq![SLASH] + name@);
                }
            }
        }
        assert(self@.take(n as int) =~= self@);
        out
    }

    /// The path that the absolute `text` writes, where it holds no `..` that
    /// goes above the root directory.
    pub fn parse(text: &[u8]) -> (r: Option<HostPath>)
        ensures
            match r {
                Some(p) => text@.len() > 0 && text@[0] == SLASH && walked(
                    Seq::empty(),
                    pieces(text@),
                ) == Some(p@) && p.wf(),
                None => text@.len() == 0 || text@[0] != SLASH || walked(
                    Seq::empty(),
                    pieces(text@),
                ) is None,
            },
    {
        if text.len() == 0 || text[0] != SLASH {
            return None;
        }
        let list = split_pieces(text);
        let mut at = HostPath::root_dir();
        if walk(&mut at, &list) {
            Some(at)
        } else {
            None
        }
    }
}

/// The pieces of `text` between its slashes.
pub fn split_pieces(text: &[u8]) -> (r: Vec<Vec<u8>>)
    ensures
        r@.map_values(|v: Vec<u8>| v@) == pieces(text@),
        r@.len() > 0,
        forall|i: int| 0 <= i < r@.len() ==> !(#[trigger] r@[i])@.contains(SLASH),
{
    let mut out: Vec<Vec<u8>> = Vec::new();
    let mut cur: Vec<u8> = Vec::new();
    let ghost bytes = |v: Vec<u8>| v@;
    assert(out@.map_values(bytes).push(cur@) =~= pieces(text@.take(0)));
    for i in 0..text.len()
        invariant
            bytes == (|v: Vec<u8>| v@),
            out@.map_values(bytes).push(cur@) == pieces(text@.take(i as int)),
            forall|k: int| 0 <= k < out@.len() ==> !(#[trigger] out@[k])@.contains(SLASH),
            !cur@.contains(SLASH),
    {
        let ghost done = out@.map_values(bytes);
        let ghost last = cur@;
        let b = text[i];
        assert(text@.take(i + 1).drop_last() =~= text@.take(i as int));
        if b == SLASH {
            out.push(cur);
            cur = Vec::new();
            assert(out@.map_values(bytes) =~= done.push(last));
            assert(out@.map_values(bytes).push(cur@) =~= done.push(last).push(Seq::empty()));
        } else {
            cur.push(b);
            assert(done.push(last).update(done.len() as int, last.push(b)) =~= done.push(cur@));
        }
    }
    assert(text@.take(text@.len() as int) =~= text@);
    let ghost done = out@.map_values(bytes);
    let ghost last = cur@;
    out.push(cur);
    assert(out@.map_values(bytes) =~= done.push(last));
    out
}

/// What a piece does to a walk.
pub enum Piece {
    Stay,
    Up,
    Down,
}

/// What `piece` does to a walk.
pub fn classify(piece: &[u8]) -> (r: Piece)
    ensures
        r is Stay <==> (piece@.len() == 0 || piece@ == seq![DOT]),
        r is Up <==> piece@ == seq![DOT, DOT],
{
    if piece.len() == 0 {
        Piece::Stay
    } else if piece.len() == 1 && piece[0] == DOT {
        assert(piece@ =~= seq![DOT]);
        Piece::Stay
    } else if piece.len() == 2 && piece[0] == DOT && piece[1] == DOT {
        assert(piece@ =~= seq![DOT, DOT]);
        Piece::Up
    } else {
        Piece::Down
    }
}

/// Walks along `list`, and says whether the walk stayed within the root
/// directory; where it did not, the path is left where the walk broke off.
pub fn walk(at: &mut HostPath, list: &[Vec<u8>]) -> (r: bool)
    requires
        old(at).wf(),
        forall|i: int| 0 <= i < list@.len() ==> !(#[trigger] list@[i])@.contains(SLASH),
    ensures
        final(at).wf(),
        r ==> walked(old(at)@, list@.map_values(|v: Vec<u8>| v@)) == Some(final(at)@),
        !r ==> walked(old(at)@, list@.map_values(|v: Vec<u8>| v@)) is None,
{
    let ghost start = at@;
    let ghost all = list@.map_values(|v: Vec<u8>| v@);
    for i in 0..list.len()
        invariant
            at.wf(),
            start == old(at)@,
            all == list@.map_values(|v: Vec<u8>| v@),
            walked(start, all.take(i as int)) == Some(at@),
            forall|k: int| 0 <= k < list@.len() ==> !(#[trigger] list@[k])@.contains(SLASH),
    {
        let ghost before = at@;
        let piece = &list[i];
        assert(all.take(i + 1).drop_last() =~= all.take(i as int));
        assert(all.take(i + 1).last() == piece@);
        match classify(piece) {
            Piece::Stay => {},
            Piece::Up => {
                if !at.pop() {
                    proof {
                        lemma_walk_stays_broken(start, all, i + 1);
                    }
                    return false;
                }
            },
            Piece::Down => {
                at.push(piece);
            },
        }
    }
    assert(all.take(list@.len() as int) =~= all);
    true
}

proof fn lemma_walk_stays_broken(at: Names, list: Seq<Seq<u8>>, n: int)
    requires
        0 <= n <= list.len(),
        walked(at, list.take(n)) is None,
    ensures
        walked(at, list) is None,
    decreases list.len() - n,
{
    if n == list.len() {
        assert(list.take(n) =~= list);
    } else {
        assert(list.take(n + 1).drop_last() =~= list.take(n));
        lemma_walk_stays_broken(at, list, n + 1);
    }
}

/// Walks along `list`; a step up from the root directory stays there.
pub fn walk_clamped(at: &mut HostPath, list: &[Vec<u8>])
    requires
        old(at).wf(),
        forall|i: int| 0 <= i < list@.len() ==> !(#[trigger] list@[i])@.contains(SLASH),
    ensures
        final(at).wf(),
        final(at)@ == walked_clamped(old(at)@, list@.map_values(|v: Vec<u8>| v@)),
{
    let ghost start = at@;
    let ghost all = list@.map_values(|v: Vec<u8>| v@);
    for i in 0..list.len()
        invariant
            at.wf(),
            all == list@.map_values(|v: Vec<u8>| v@),
            at@ == walked_clamped(start, all.take(i as int)),
            forall|k: int| 0 <= k < list@.len() ==> !(#[trigger] list@[k])@.contains(SLASH),
    {
        let piece = &list[i];
        assert(all.take(i + 1).drop_last() =~= all.take(i as int));
        assert(all.take(i + 1).last() == piece@);
        match classify(piece) {
            Piece::Stay => {},
            Piece::Up => {
                at.pop();
            },
            Piece::Down => {
                at.push(piece);
            },
        }
    }
    assert(all.take(list@.len() as int) =~= all);
}

// ---------------------------------------------------------------------------
// Lemmas
// ---------------------------------------------------------------------------

/// No piece holds a slash.
pub proof fn lemma_pieces_without_slash(text: Seq<u8>)
    ensures
        pieces(text).len() > 0,
        forall|i: int| 0 <= i < pieces(text).len() ==> !(#[trigger] pieces(text)[i]).contains(SLASH),
    decreases text.len(),
{
    if text.len() > 0 {
        let rest = pieces(text.drop_last());
        lemma_pieces_without_slash(text.drop_last());
        if text.last() != SLASH {
            let last = rest.last();
            assert(!last.contains(SLASH)) by {
                assert(last == rest[rest.len() - 1]);
            }
            let longer = last.push(text.last());
            assert forall|j: int| 0 <= j < longer.len() implies longer[j] != SLASH by {
                if j < last.len() {
                    assert(longer[j] == last[j]);
                    assert(last.contains(last[j]));
                }
            }
        }
    }
}

/// A step along a slashless piece goes through names only.
pub proof fn lemma_step_names(at: Names, piece: Seq<u8>)
    requires
        all_names(at),
        !piece.contains(SLASH),
    ensures
        stepped(at, piece) matches Some(n) ==> all_names(n),
        all_names(stepped_clamped(at, piece)),
{
    match stepped(at, piece) {
        Some(n) => {
            assert forall|i: int| 0 <= i < n.len() implies is_name(#[trigger] n[i]) by {
                if i < at.len() {
                    assert(n[i] == at[i]);
                } else {
                    assert(n[i] == piece);
                }
            }
        },
        None => {},
    }
}

/// A walk along slashless pieces goes through names only.
pub proof fn lemma_walk_names(at: Names, list: Seq<Seq<u8>>)
    requires
        all_names(at),
        forall|i: int| 0 <= i < list.len() ==> !(#[trigger] list[i]).contains(SLASH),
    ensures
        walked(at, list) matches Some(n) ==> all_names(n),
        all_names(walked_clamped(at, list)),
    decreases list.len(),
{
    if list.len() > 0 {
        lemma_walk_names(at, list.drop_last());
        match walked(at, list.drop_last()) {
            Some(n) => {
                lemma_step_names(n, list.last());
            },
            None => {},
        }
        lemma_step_names(walked_clamped(at, list.drop_last()), list.last());
    }
}

/// A slash in front of a text adds one empty piece in front.
pub proof fn lemma_leading_slash_pieces(text: Seq<u8>)
    ensures
        pieces(seq![SLASH] + text) == seq![Seq::<u8>::empty()] + pieces(text),
    decreases text.len(),
{
    let whole = seq![SLASH] + text;
    let empty = Seq::<u8>::empty();
    if text.len() == 0 {
        assert(whole.drop_last() =~= empty);
        assert(pieces(empty) =~= seq![empty]);
        assert(pieces(whole) =~= seq![empty] + pieces(text));
    } else {
        lemma_leading_slash_pieces(text.drop_last());
        lemma_pieces_without_slash(text.drop_last());
        assert(whole.drop_last() =~= seq![SLASH] + text.drop_last());
        assert(pieces(whole) =~= seq![empty] + pieces(text));
    }
}

/// An empty piece in front of a walk counts for nothing.
pub proof fn lemma_leading_empty_piece(at: Names, list: Seq<Seq<u8>>)
    ensures
        walked(at, seq![Seq::<u8>::empty()] + list) == walked(at, list),
    decreases list.len(),
{
    let whole = seq![Seq::<u8>::empty()] + list;
    if list.len() == 0 {
        assert(whole.drop_last() =~= list);
        assert(walked(at, whole.drop_last()) == Some(at));
    } else {
        lemma_leading_empty_piece(at, list.drop_last());
        assert(whole.drop_last() =~= seq![Seq::<u8>::empty()] + list.drop_last());
    }
}

// ---------------------------------------------------------------------------
// Laws
// ---------------------------------------------------------------------------

/// A slash cuts a text in two: the pieces before it and those behind it are cut on
/// their own, and nothing is left of the slash.
pub proof fn a_slash_cuts_a_text_in_two(a: Seq<u8>, b: Seq<u8>)
    ensures
        pieces(a + seq![47u8] + b) == pieces(a) + pieces(b),
    decreases b.len(),
{
    let whole = a + seq![47u8] + b;
    if b.len() == 0 {
        assert(whole.drop_last() =~= a);
        assert(b =~= Seq::empty());
        assert(pieces(whole) =~= pieces(a) + pieces(b));
    } else {
        a_slash_cuts_a_text_in_two(a, b.drop_last());
        lemma_pieces_without_slash(b.drop_last());
        assert(whole.drop_last() =~= a + seq![47u8] + b.drop_last());
        assert(whole.last() == b.last());
        assert(pieces(whole) =~= pieces(a) + pieces(b));
    }
}

/// A text without slashes is one piece.
pub proof fn a_text_without_slashes_is_one_piece(text: Seq<u8>)
    requires
        forall|i: int| 0 <= i < text.len() ==> #[trigger] text[i] != 47,
    ensures
        pieces(text) == seq![text],
    decreases text.len(),
{
    if text.len() == 0 {
        assert(text =~= Seq::empty());
    } else {
        let front = text.drop_last();
        assert forall|i: int| 0 <= i < front.len() implies #[trigger] front[i] != 47 by {
            assert(front[i] == text[i]);
        }
        a_text_without_slashes_is_one_piece(front);
        assert(text[text.len() - 1] != 47);
        assert(front.push(text.last()) =~= text);
        assert(pieces(text) =~= seq![text]);
    }
}

/// Any text without slashes is a name, but the empty one, `.` and `..`.
pub proof fn names_are_texts_without_slashes(part: Seq<u8>)
    ensures
        is_name(part) <==> {
            &&& part.len() > 0
            &&& forall|i: int| 0 <= i < part.len() ==> #[trigger] part[i] != 47
            &&& !(part.len() == 1 && part[0] == 46)
            &&& !(part.len() == 2 && part[0] == 46 && part[1] == 46)
        },
{
    if part.len() == 1 && part[0] == 46 {
        assert(part =~= seq![DOT]);
    }
    if part.len() == 2 && part[0] == 46 && part[1] == 46 {
        assert(part =~= seq![DOT, DOT]);
    }
    if exists|i: int| 0 <= i < part.len() && part[i] == 47 {
        let i = choose|i: int| 0 <= i < part.len() && part[i] == 47;
        assert(part.contains(part[i]));
    }
}

/// A walk goes on from where it has come to.
pub proof fn a_walk_goes_on(at: Names, a: Seq<Seq<u8>>, b: Seq<Seq<u8>>)
    ensures
        walked(at, a + b) == match walked(at, a) {
            Some(p) => walked(p, b),
            None => None,
        },
        walked_clamped(at, a + b) == walked_clamped(walked_clamped(at, a), b),
    decreases b.len(),
{
    if b.len() == 0 {
        assert(a + b =~= a);
    } else {
        assert((a + b).drop_last() =~= a + b.drop_last());
        a_walk_goes_on(at, a, b.drop_last());
    }
}

/// One step of a walk: a name leads down to it, `..` back up, and nothing or `.`
/// nowhere. There is no way up from the root directory.
pub proof fn a_walk_goes_down_by_names_and_up_by_dots(at: Names, name: Seq<u8>)
    requires
        is_name(name),
    ensures
        walked(at, seq![name]) == Some(at.push(name)),
        walked(at.push(name), seq![seq![46u8, 46u8]]) == Some(at),
        walked(at, seq![seq![46u8]]) == Some(at),
        walked(at, seq![Seq::<u8>::empty()]) == Some(at),
        walked(Seq::empty(), seq![seq![46u8, 46u8]]) is None,
        walked_clamped(at, seq![name]) == at.push(name),
        walked_clamped(at.push(name), seq![seq![46u8, 46u8]]) == at,
        walked_clamped(at, seq![seq![46u8]]) == at,
        walked_clamped(at, seq![Seq::<u8>::empty()]) == at,
        walked_clamped(Seq::empty(), seq![seq![46u8, 46u8]]) == Seq::<Seq<u8>>::empty(),
{
    let up = seq![46u8, 46u8];
    let here = seq![46u8];
    let none = Seq::<u8>::empty();
    let root = Seq::<Seq<u8>>::empty();
    assert(up.len() == 2 && here.len() == 1);
    assert(at.push(name).drop_last() =~= at);
    lemma_one_step(at, name);
    lemma_one_step(at.push(name), up);
    lemma_one_step(at, here);
    lemma_one_step(at, none);
    lemma_one_step(root, up);
}

/// A walk along a single piece is a step.
pub proof fn lemma_one_step(at: Names, piece: Seq<u8>)
    ensures
        walked(at, seq![piece]) == stepped(at, piece),
        walked_clamped(at, seq![piece]) == stepped_clamped(at, piece),
{
    let list = seq![piece];
    assert(list.drop_last() =~= Seq::empty());
    assert(walked(at, list.drop_last()) == Some(at));
    assert(walked_clamped(at, list.drop_last()) == at);
}

/// A walk along names goes down by all of them.
pub proof fn a_walk_along_names_goes_down(at: Names, names: Names)
    requires
        all_names(names),
    ensures
        walked(at, names) == Some(at + names),
        walked_clamped(at, names) == at + names,
    decreases names.len(),
{
    if names.len() == 0 {
        assert(at + names =~= at);
    } else {
        let front = names.drop_last();
        assert forall|i: int| 0 <= i < front.len() implies is_name(#[trigger] front[i]) by {
            assert(front[i] == names[i]);
        }
        a_walk_along_names_goes_down(at, front);
        assert(is_name(names[names.len() - 1]));
        assert((at + front).push(names.last()) =~= at + names);
    }
}

proof fn lemma_pieces_of_path(names: Names)
    requires
        all_names(names),
        names.len() > 0,
    ensures
        pieces(path_bytes(names)) == seq![Seq::<u8>::empty()] + names,
    decreases names.len(),
{
    let empty = Seq::<u8>::empty();
    let last = names.last();
    let front = names.drop_last();
    names_are_texts_without_slashes(last);
    assert(is_name(names[names.len() - 1]));
    a_text_without_slashes_is_one_piece(last);
    if names.len() == 1 {
        a_slash_cuts_a_text_in_two(empty, last);
        assert(empty + seq![47u8] + last =~= path_bytes(names));
        a_text_without_slashes_is_one_piece(empty);
        assert(pieces(path_bytes(names)) =~= seq![empty] + names);
    } else {
        assert forall|i: int| 0 <= i < front.len() implies is_name(#[trigger] front[i]) by {
            assert(front[i] == names[i]);
        }
        lemma_pieces_of_path(front);
        a_slash_cuts_a_text_in_two(path_bytes(front), last);
        assert(pieces(path_bytes(names)) =~= seq![empty] + names);
    }
}

/// The bytes of a path begin with a slash, and are read back as its names; without the
/// slash they are the path from a directory.
pub proof fn a_path_is_read_back(at: Names, names: Names)
    requires
        all_names(names),
    ensures
        path_bytes(names)[0] == 47,
        walked(Seq::empty(), pieces(path_bytes(names))) == Some(names),
        walked(at, pieces(path_bytes(names).skip(1))) == Some(at + names),
        walked_clamped(at, pieces(path_bytes(names).skip(1))) == at + names,
        names.len() == 0 ==> path_bytes(names).len() == 1,
        names.len() > 0 ==> pieces(path_bytes(names).skip(1)) == names,
    decreases names.len(),
{
    let empty = Seq::<u8>::empty();
    let text = path_bytes(names);
    lemma_path_starts(names);
    assert(text =~= empty + seq![47u8] + text.skip(1));
    a_slash_cuts_a_text_in_two(empty, text.skip(1));
    a_text_without_slashes_is_one_piece(empty);
    let rest = pieces(text.skip(1));
    assert(pieces(text) == seq![empty] + rest);
    lemma_leading_empty_piece(Seq::empty(), rest);
    if names.len() == 0 {
        assert(text.skip(1) =~= empty);
        assert(at + names =~= at);
        lemma_one_step(at, empty);
        lemma_one_step(Seq::empty(), empty);
        assert(names =~= Seq::empty());
    } else {
        lemma_pieces_of_path(names);
        assert((seq![empty] + rest).drop_first() =~= rest);
        assert((seq![empty] + names).drop_first() =~= names);
        a_walk_along_names_goes_down(Seq::empty(), names);
        a_walk_along_names_goes_down(at, names);
        assert(Seq::<Seq<u8>>::empty() + names =~= names);
    }
}

proof fn lemma_path_starts(names: Names)
    ensures
        path_bytes(names).len() > 0,
        path_bytes(names)[0] == 47,
    decreases names.len(),
{
    if names.len() > 1 {
        lemma_path_starts(names.drop_last());
    }
}

/// The value of an upper-case hexadecimal digit.
pub open spec fn hex_value(c: char) -> int {
    if '0' <= c <= '9' {
        c as int - '0' as int
    } else {
        c as int - 'A' as int + 10
    }
}

/// A byte that is no text is shown by its number, in two hexadecimal digits.
pub proof fn a_byte_that_is_no_text_is_shown_by_its_number(b: u8)
    requires
        !valid_utf8(seq![b]),
    ensures
        ({
            let s = shown_form(seq![b]);
            &&& s.len() == 6
            &&& s[0] == '"' && s[1] == '\\' && s[2] == 'x' && s[5] == '"'
            &&& '0' <= s[3] <= '9' || 'A' <= s[3] <= 'F'
            &&& '0' <= s[4] <= '9' || 'A' <= s[4] <= 'F'
            &&& 16 * hex_value(s[3]) + hex_value(s[4]) == b
        }),
{
    let bytes = seq![b];
    assert(bytes.take(1) =~= bytes);
    assert(bytes.skip(1) =~= Seq::empty());
    assert(shown_inner(bytes.skip(1)) == Seq::<char>::empty());
    assert(shown_inner(bytes) =~= byte_escape(b));
}

/// A character of ASCII is shown as in the debug form of a text, and what follows it
/// on its own.
pub proof fn a_path_is_shown_character_by_character(b: u8, rest: Seq<u8>)
    requires
        b < 128,
    ensures
        shown_form(seq![b] + rest) == seq!['"'] + unquoted(text::debug_form(seq![b as char]))
            + shown_inner(rest) + seq!['"'],
        shown_form(Seq::empty()) == seq!['"', '"'],
{
    let bytes = seq![b] + rest;
    let one = seq![b as char];
    assert(vstd::utf8::is_ascii_chars(one));
    is_ascii_chars_encode_utf8(one);
    assert(encode_utf8(one) =~= seq![b]);
    encode_utf8_valid_utf8(one);
    encode_utf8_decode_utf8(one);
    assert(bytes.take(1) =~= seq![b]);
    assert(bytes.skip(1) =~= rest);
    assert(shown_form(bytes) =~= seq!['"'] + unquoted(text::debug_form(one)) + shown_inner(rest)
        + seq!['"']);
    assert(shown_form(Seq::empty()) =~= seq!['"', '"']);
}

} // verus!
