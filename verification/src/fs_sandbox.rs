//! A sandboxed view of a host directory.
//!
//! A guest path is resolved relative to the root of the sandbox; any attempt to
//! leave the root, by `..` or through a symbolic link, is rejected. Resolving
//! needs answers from the host file system. It is a state machine: each step
//! either asks one question about the file system or ends.

use crate::path;
use crate::path::{
    classify, copy_bytes, shown_bytes, split_pieces, walk, walk_clamped, HostPath,
    Names, Piece, SLASH,
};
use crate::text;
use crate::text::{debug_text, owned};
use vstd::prelude::*;
use vstd::string::*;

verus! {

/// How many links of a chain are looked at, and how many the host follows on the way
/// along one path: what lies behind more of them cannot be opened.
pub const MAX_SYMLINK_HOPS: usize = 40;

// ---------------------------------------------------------------------------
// The sandbox
// ---------------------------------------------------------------------------

/// A sandboxed view of a host directory that the guest can read and write via
/// host function calls. All guest-supplied paths are resolved relative to the
/// root; any attempt to escape the root is rejected.
#[derive(Debug, Clone, PartialEq, Eq)]
pub struct FsSandbox {
    pub dir: HostPath,
}

/// What the host says of the directory that a sandbox is to be rooted at.
#[derive(Debug, PartialEq, Eq)]
pub enum RootProbe {
    /// The path could not be made canonical.
    Unresolved(String),
    /// The canonical path, and whether it is a directory.
    Canonical(HostPath, bool),
}

/// Why there is no sandbox for a directory.
#[derive(Debug, PartialEq, Eq)]
pub enum RootError {
    /// The requested path could not be made canonical, for this reason.
    Canonicalize(Vec<u8>, String),
    /// The canonical path is not a directory.
    NotADirectory(HostPath),
}

impl RootError {
    /// The wording for this error.
    pub open spec fn wording(&self) -> Seq<char> {
        match self {
            RootError::Canonicalize(requested, cause) => "canonicalize mount root "@
                + path::shown_form(requested@) + ": "@ + cause@,
            RootError::NotADirectory(dir) => "mount root is not a directory: "@
                + path::shown_form(path::path_bytes(dir@)),
        }
    }

    /// The wording for this error.
    pub fn message(&self) -> (r: String)
        ensures
            r@ == self.wording(),
    {
        match self {
            RootError::Canonicalize(requested, cause) => {
                let mut out = owned("canonicalize mount root ");
                out.append(shown_bytes(requested).as_str());
                out.append(": ");
                out.append(cause.as_str());
                out
            },
            RootError::NotADirectory(dir) => {
                let mut out = owned("mount root is not a directory: ");
                out.append(shown(dir).as_str());
                out
            },
        }
    }
}

/// A path as it stands in error texts.
pub fn shown(p: &HostPath) -> (r: String)
    ensures
        r@ == path::shown_form(path::path_bytes(p@)),
{
    shown_bytes(&p.to_bytes())
}

impl FsSandbox {
    /// Every name of the root is one that a directory can hold.
    pub open spec fn wf(&self) -> bool {
        self.dir.wf()
    }

    /// Create a new sandbox rooted at `requested` (must be an existing
    /// directory), given what the host says of it.
    pub fn new(requested: &[u8], probe: RootProbe) -> (r: Result<FsSandbox, RootError>)
        requires
            probe matches RootProbe::Canonical(dir, _) ==> dir.wf(),
        ensures
            match (probe, r) {
                (RootProbe::Unresolved(cause), Err(RootError::Canonicalize(p, c))) => p@
                    == requested@ && c == cause,
                (RootProbe::Canonical(dir, true), Ok(sandbox)) => sandbox.dir == dir
                    && sandbox.wf(),
                (RootProbe::Canonical(dir, false), Err(RootError::NotADirectory(d))) => d == dir,
                _ => false,
            },
    {
        match probe {
            RootProbe::Unresolved(cause) => Err(
                RootError::Canonicalize(copy_bytes(requested), cause),
            ),
            RootProbe::Canonical(dir, is_dir) => if is_dir {
                Ok(FsSandbox { dir })
            } else {
                Err(RootError::NotADirectory(dir))
            },
        }
    }

    /// The canonicalized host-side root directory. All guest-supplied paths are
    /// resolved relative to this; escapes are rejected.
    pub fn root(&self) -> (r: &HostPath)
        ensures
            *r == self.dir,
    {
        &self.dir
    }

    /// A copy of the sandbox.
    pub fn copied(&self) -> (r: FsSandbox)
        ensures
            r.dir@ == self.dir@,
    {
        FsSandbox { dir: self.dir.copied() }
    }
}

// ---------------------------------------------------------------------------
// Resolving: the model
// ---------------------------------------------------------------------------

/// Why a guest path was not resolved.
#[derive(Debug, PartialEq, Eq)]
pub enum ResolveError {
    /// `..` leads out of the mount.
    Escapes(String),
    /// An existing ancestor is a link out of the mount.
    EscapesBySymlink(String),
    /// A link on a way that does not exist yet points or leads out of the mount.
    LinkEscapes(String),
    /// No ancestor exists, not even the root directory.
    NoAncestor(HostPath),
    /// The host could not make this existing path canonical, for this reason.
    Canonicalize(HostPath, String),
    /// The host could not read a link, for this reason.
    Host(String),
}

/// The value of a `ResolveError`.
pub enum ErrorModel {
    Escapes(Seq<char>),
    EscapesBySymlink(Seq<char>),
    LinkEscapes(Seq<char>),
    NoAncestor(Names),
    Canonicalize(Names, Seq<char>),
    Host(Seq<char>),
}

impl ResolveError {
    /// The value of this error.
    pub open spec fn model(&self) -> ErrorModel {
        match self {
            ResolveError::Escapes(g) => ErrorModel::Escapes(g@),
            ResolveError::EscapesBySymlink(g) => ErrorModel::EscapesBySymlink(g@),
            ResolveError::LinkEscapes(g) => ErrorModel::LinkEscapes(g@),
            ResolveError::NoAncestor(p) => ErrorModel::NoAncestor(p@),
            ResolveError::Canonicalize(p, cause) => ErrorModel::Canonicalize(p@, cause@),
            ResolveError::Host(m) => ErrorModel::Host(m@),
        }
    }

    /// The wording for this error.
    pub fn message(&self) -> (r: String)
        ensures
            r@ == self.model().wording(),
    {
        match self {
            ResolveError::Escapes(g) => {
                let mut out = owned("path escapes mount root: ");
                out.append(debug_text(g.as_str()).as_str());
                out
            },
            ResolveError::EscapesBySymlink(g) => {
                let mut out = owned("path escapes mount root (symlink): ");
                out.append(debug_text(g.as_str()).as_str());
                out
            },
            ResolveError::LinkEscapes(g) => {
                let mut out = owned("symlink target escapes mount root: ");
                out.append(debug_text(g.as_str()).as_str());
                out
            },
            ResolveError::NoAncestor(p) => {
                let mut out = owned("path has no existing ancestor: ");
                out.append(shown(p).as_str());
                out
            },
            ResolveError::Canonicalize(p, cause) => {
                let mut out = owned("canonicalize ");
                out.append(shown(p).as_str());
                out.append(": ");
                out.append(cause.as_str());
                out
            },
            ResolveError::Host(m) => owned(m.as_str()),
        }
    }
}

impl ErrorModel {
    /// The wording for this error.
    pub open spec fn wording(self) -> Seq<char> {
        match self {
            ErrorModel::Escapes(g) => "path escapes mount root: "@ + text::debug_form(g),
            ErrorModel::EscapesBySymlink(g) => "path escapes mount root (symlink): "@
                + text::debug_form(g),
            ErrorModel::LinkEscapes(g) => "symlink target escapes mount root: "@
                + text::debug_form(g),
            ErrorModel::NoAncestor(p) => "path has no existing ancestor: "@
                + path::shown_form(path::path_bytes(p)),
            ErrorModel::Canonicalize(p, cause) => "canonicalize "@ + path::shown_form(
                path::path_bytes(p),
            ) + ": "@ + cause,
            ErrorModel::Host(m) => m,
        }
    }
}

/// What a path is that may be a symbolic link.
pub enum LinkModel {
    /// No symbolic link, or nothing at all.
    Plain,
    /// A symbolic link with this target.
    To(Seq<u8>),
    /// A symbolic link that could not be read, for this reason.
    Unreadable(Seq<char>),
}

/// How far a resolution has come.
pub enum StageModel {
    /// Asking whether the first `n` names of the logical path exist.
    Probing(int),
    /// Asking for the canonical form of the first `n` names.
    Canonicalizing(int),
    /// `out` goes down to the name before `next`, and the chain of links that begins
    /// there has come to `cursor` after `hops` links: asking whether that is a link.
    Chasing { out: Names, next: int, cursor: Names, hops: int },
    /// All of `out` is named. Opening it leads to the directory `at` so far, with no
    /// link on the way to that and `hops` links followed, and goes on along `ahead`,
    /// which begins with a name: asking whether that is a link.
    Walking { out: Names, at: Names, ahead: Pieces, hops: int },
}

/// The pieces of a path between its slashes.
pub type Pieces = Seq<Seq<u8>>;

/// A question, or the end.
pub enum StepModel {
    Ask(StageModel),
    Done(Names),
    Failed(ErrorModel),
}

/// An answer of the host file system.
pub enum AnswerModel {
    Exists(bool),
    Canonical(Result<Names, Seq<char>>),
    Link(LinkModel),
}

/// The logical path: the walk from `root` along `guest`, if it stays in `root`.
pub open spec fn logical_path(root: Names, guest: Seq<char>) -> Option<Names> {
    match path::walked(root, path::pieces(vstd::utf8::encode_utf8(guest))) {
        Some(p) => if root.is_prefix_of(p) {
            Some(p)
        } else {
            None
        },
        None => None,
    }
}

/// Where a walk along the target of a link in `dir` begins.
pub open spec fn link_base(dir: Names, target: Seq<u8>) -> Names {
    if target.len() > 0 && target[0] == SLASH {
        Seq::empty()
    } else {
        dir
    }
}

/// Where the text of a link in `dir` points.
pub open spec fn link_destination(dir: Names, target: Seq<u8>) -> Names {
    path::walked_clamped(link_base(dir, target), path::pieces(target))
}

/// The walk from `at` along `ahead`, up to the first name in it, and what is still
/// ahead there.
pub open spec fn settled(at: Names, ahead: Pieces) -> (Names, Pieces)
    decreases ahead.len(),
{
    if ahead.len() == 0 || path::goes_down(ahead[0]) {
        (at, ahead)
    } else {
        settled(path::stepped_clamped(at, ahead[0]), ahead.drop_first())
    }
}

/// The directory that `p` stands in.
pub open spec fn parent(p: Names) -> Names {
    if p.len() == 0 {
        p
    } else {
        p.drop_last()
    }
}

/// The next question on the way along `ahead`. At its end, the place must be under
/// the root.
pub open spec fn advanced(
    root: Names,
    guest: Seq<char>,
    out: Names,
    at: Names,
    ahead: Pieces,
    hops: int,
) -> StepModel {
    let (place, rest) = settled(at, ahead);
    if rest.len() > 0 {
        StepModel::Ask(StageModel::Walking { out, at: place, ahead: rest, hops })
    } else if root.is_prefix_of(place) {
        StepModel::Done(out)
    } else {
        StepModel::Failed(ErrorModel::LinkEscapes(guest))
    }
}

/// The question about the name at `next`, below `out`. Behind the last name, the way
/// from the root along all of `out` is walked.
pub open spec fn named(
    root: Names,
    guest: Seq<char>,
    logical: Names,
    out: Names,
    next: int,
) -> StepModel {
    if next < logical.len() {
        let below = out.push(logical[next]);
        StepModel::Ask(
            StageModel::Chasing { out: below, next: next + 1, cursor: below, hops: 0 },
        )
    } else {
        advanced(root, guest, out, root, out.skip(root.len() as int), 0)
    }
}

/// The first step of resolving `guest` under `root`.
pub open spec fn first_step(root: Names, guest: Seq<char>) -> StepModel {
    match logical_path(root, guest) {
        Some(p) => StepModel::Ask(StageModel::Probing(p.len() as int)),
        None => StepModel::Failed(ErrorModel::Escapes(guest)),
    }
}

/// Whether an answer is one to the question of this stage.
pub open spec fn answers(stage: StageModel, answer: AnswerModel) -> bool {
    match stage {
        StageModel::Probing(_) => answer is Exists,
        StageModel::Canonicalizing(_) => answer is Canonical,
        StageModel::Chasing { .. } => answer is Link,
        StageModel::Walking { .. } => answer is Link,
    }
}

/// The step after `answer`.
pub open spec fn next_step(
    root: Names,
    guest: Seq<char>,
    logical: Names,
    stage: StageModel,
    answer: AnswerModel,
) -> StepModel {
    match stage {
        StageModel::Probing(n) => if answer->Exists_0 {
            StepModel::Ask(StageModel::Canonicalizing(n))
        } else if n == 0 {
            StepModel::Failed(ErrorModel::NoAncestor(logical))
        } else {
            StepModel::Ask(StageModel::Probing(n - 1))
        },
        StageModel::Canonicalizing(n) => match answer->Canonical_0 {
            Err(cause) => StepModel::Failed(ErrorModel::Canonicalize(logical.take(n), cause)),
            Ok(p) => if !root.is_prefix_of(p) {
                StepModel::Failed(ErrorModel::EscapesBySymlink(guest))
            } else if n >= logical.len() {
                StepModel::Done(p)
            } else {
                named(root, guest, logical, p, n)
            },
        },
        StageModel::Chasing { out, next, cursor, hops } => match answer->Link_0 {
            LinkModel::Plain => named(root, guest, logical, out, next),
            LinkModel::Unreadable(message) => StepModel::Failed(ErrorModel::Host(message)),
            LinkModel::To(target) => {
                let destination = link_destination(parent(cursor), target);
                if !root.is_prefix_of(destination) {
                    StepModel::Failed(ErrorModel::LinkEscapes(guest))
                } else if hops + 1 >= MAX_SYMLINK_HOPS {
                    named(root, guest, logical, out, next)
                } else {
                    StepModel::Ask(
                        StageModel::Chasing { out, next, cursor: destination, hops: hops + 1 },
                    )
                }
            },
        },
        StageModel::Walking { out, at, ahead, hops } => match answer->Link_0 {
            LinkModel::Plain => advanced(
                root,
                guest,
                out,
                at.push(ahead[0]),
                ahead.drop_first(),
                hops,
            ),
            LinkModel::Unreadable(message) => StepModel::Failed(ErrorModel::Host(message)),
            LinkModel::To(target) => if hops >= MAX_SYMLINK_HOPS {
                StepModel::Done(out)
            } else {
                advanced(
                    root,
                    guest,
                    out,
                    link_base(at, target),
                    path::pieces(target) + ahead.drop_first(),
                    hops + 1,
                )
            },
        },
    }
}

/// Every piece is without a slash.
pub open spec fn all_slashless(list: Pieces) -> bool {
    forall|i: int| 0 <= i < list.len() ==> !(#[trigger] list[i]).contains(SLASH)
}

/// A stage that a resolution can be in.
pub open spec fn stage_wf(root: Names, logical: Names, stage: StageModel) -> bool {
    match stage {
        StageModel::Probing(n) => 0 <= n <= logical.len(),
        StageModel::Canonicalizing(n) => 0 <= n <= logical.len(),
        StageModel::Chasing { out, next, cursor, hops } => {
            &&& 0 < next <= logical.len()
            &&& 0 <= hops < MAX_SYMLINK_HOPS
            &&& root.is_prefix_of(out)
            &&& path::all_names(out)
            &&& path::all_names(cursor)
        },
        StageModel::Walking { out, at, ahead, hops } => {
            &&& 0 <= hops <= MAX_SYMLINK_HOPS
            &&& root.is_prefix_of(out)
            &&& path::all_names(out)
            &&& path::all_names(at)
            &&& ahead.len() > 0
            &&& path::goes_down(ahead[0])
            &&& all_slashless(ahead)
        },
    }
}

// ---------------------------------------------------------------------------
// Resolving: the machine
// ---------------------------------------------------------------------------

/// A question about the host file system.
#[derive(Debug, PartialEq, Eq)]
pub enum Query {
    /// Does the path exist, links followed?
    Exists(HostPath),
    /// What is the canonical form of the path?
    Canonicalize(HostPath),
    /// Is the path a symbolic link, and to what?
    ReadLink(HostPath),
}

/// What a path is that may be a symbolic link.
#[derive(Debug, PartialEq, Eq)]
pub enum Link {
    Plain,
    To(Vec<u8>),
    Unreadable(String),
}

/// An answer to a `Query`.
#[derive(Debug, PartialEq, Eq)]
pub enum Answer {
    Exists(bool),
    Canonical(Result<HostPath, String>),
    Link(Link),
}

/// How far a resolution has come.
#[derive(Debug, PartialEq, Eq)]
pub enum Stage {
    Probing(usize),
    Canonicalizing(usize),
    Chasing { out: HostPath, next: usize, cursor: HostPath, hops: usize },
    Walking { out: HostPath, at: HostPath, ahead: Vec<Vec<u8>>, hops: usize },
}

/// The value of some pieces.
pub open spec fn pieces_of(list: Seq<Vec<u8>>) -> Pieces {
    list.map_values(|v: Vec<u8>| v@)
}

/// A resolution that is under way.
#[derive(Debug, PartialEq, Eq)]
pub struct Resolution {
    pub root: HostPath,
    pub guest_path: String,
    pub logical: HostPath,
    pub stage: Stage,
}

/// What a resolution needs next, or how it ended.
#[derive(Debug, PartialEq, Eq)]
pub enum Step {
    Ask(Resolution),
    Done(HostPath),
    Failed(ResolveError),
}

impl Link {
    /// The value of this link.
    pub open spec fn model(&self) -> LinkModel {
        match self {
            Link::Plain => LinkModel::Plain,
            Link::To(t) => LinkModel::To(t@),
            Link::Unreadable(m) => LinkModel::Unreadable(m@),
        }
    }
}

impl Answer {
    /// The value of this answer.
    pub open spec fn model(&self) -> AnswerModel {
        match self {
            Answer::Exists(b) => AnswerModel::Exists(*b),
            Answer::Canonical(Ok(p)) => AnswerModel::Canonical(Ok(p@)),
            Answer::Canonical(Err(m)) => AnswerModel::Canonical(Err(m@)),
            Answer::Link(l) => AnswerModel::Link(l.model()),
        }
    }

    /// A canonical path in the answer holds only names.
    pub open spec fn wf(&self) -> bool {
        self matches Answer::Canonical(Ok(p)) ==> p.wf()
    }
}

impl Stage {
    /// The value of this stage.
    pub open spec fn model(&self) -> StageModel {
        match self {
            Stage::Probing(n) => StageModel::Probing(*n as int),
            Stage::Canonicalizing(n) => StageModel::Canonicalizing(*n as int),
            Stage::Chasing { out, next, cursor, hops } => StageModel::Chasing {
                out: out@,
                next: *next as int,
                cursor: cursor@,
                hops: *hops as int,
            },
            Stage::Walking { out, at, ahead, hops } => StageModel::Walking {
                out: out@,
                at: at@,
                ahead: pieces_of(ahead@),
                hops: *hops as int,
            },
        }
    }
}

impl Step {
    /// The value of this step.
    pub open spec fn model(&self) -> StepModel {
        match self {
            Step::Ask(r) => StepModel::Ask(r.stage.model()),
            Step::Done(p) => StepModel::Done(p@),
            Step::Failed(e) => StepModel::Failed(e.model()),
        }
    }

    /// This step belongs to resolving `guest` under `root`: a resolution under
    /// way is well formed, and a finished path holds only names.
    pub open spec fn wf(&self, root: Names, guest: Seq<char>, logical: Names) -> bool {
        match self {
            Step::Ask(r) => {
                &&& r.wf()
                &&& r.root@ == root
                &&& r.guest_path@ == guest
                &&& r.logical@ == logical
            },
            Step::Done(p) => p.wf(),
            Step::Failed(_) => true,
        }
    }
}

impl Resolution {
    /// The logical path is that of the guest path, and the stage can occur.
    pub open spec fn wf(&self) -> bool {
        &&& self.root.wf()
        &&& self.logical.wf()
        &&& logical_path(self.root@, self.guest_path@) == Some(self.logical@)
        &&& stage_wf(self.root@, self.logical@, self.stage.model())
    }

    /// The question to ask the host file system.
    pub fn query(&self) -> (r: Query)
        requires
            self.wf(),
        ensures
            match (self.stage, r) {
                (Stage::Probing(n), Query::Exists(p)) => p@ == self.logical@.take(n as int),
                (Stage::Canonicalizing(n), Query::Canonicalize(p)) => p@ == self.logical@.take(
                    n as int,
                ),
                (Stage::Chasing { cursor, .. }, Query::ReadLink(p)) => p@ == cursor@,
                (Stage::Walking { at, ahead, .. }, Query::ReadLink(p)) => p@ == at@.push(
                    ahead@[0]@,
                ),
                _ => false,
            },
    {
        match &self.stage {
            Stage::Probing(n) => Query::Exists(self.logical.prefix(*n)),
            Stage::Canonicalizing(n) => Query::Canonicalize(self.logical.prefix(*n)),
            Stage::Chasing { cursor, .. } => Query::ReadLink(cursor.copied()),
            Stage::Walking { at, ahead, .. } => {
                let mut p = at.copied();
                p.push(&ahead[0]);
                Query::ReadLink(p)
            },
        }
    }

    /// Goes on with the answer to the question of this resolution.
    pub fn answer(self, answer: Answer) -> (r: Step)
        requires
            self.wf(),
            answer.wf(),
            answers(self.stage.model(), answer.model()),
        ensures
            r.model() == next_step(
                self.root@,
                self.guest_path@,
                self.logical@,
                self.stage.model(),
                answer.model(),
            ),
            r.wf(self.root@, self.guest_path@, self.logical@),
    {
        let Resolution { root, guest_path, logical, stage } = self;
        match stage {
            Stage::Probing(n) => {
                let exists: bool = match answer {
                    Answer::Exists(b) => b,
                    _ => false,
                };
                if exists {
                    Step::Ask(
                        Resolution { root, guest_path, logical, stage: Stage::Canonicalizing(n) },
                    )
                } else if n == 0 {
                    Step::Failed(ResolveError::NoAncestor(logical))
                } else {
                    Step::Ask(
                        Resolution { root, guest_path, logical, stage: Stage::Probing(n - 1) },
                    )
                }
            },
            Stage::Canonicalizing(n) => match answer {
                Answer::Canonical(Ok(p)) => if !p.starts_with(&root) {
                    Step::Failed(ResolveError::EscapesBySymlink(guest_path))
                } else if n >= logical.depth() {
                    Step::Done(p)
                } else {
                    name_next(root, guest_path, logical, p, n)
                },
                Answer::Canonical(Err(cause)) => Step::Failed(
                    ResolveError::Canonicalize(logical.prefix(n), cause),
                ),
                _ => Step::Failed(ResolveError::Host(String::new())),
            },
            Stage::Chasing { out, next, cursor, hops } => {
                let link = match answer {
                    Answer::Link(l) => l,
                    _ => Link::Plain,
                };
                match link {
                    Link::Plain => name_next(root, guest_path, logical, out, next),
                    Link::Unreadable(m) => Step::Failed(ResolveError::Host(m)),
                    Link::To(target) => {
                        let mut dir = cursor;
                        dir.pop();
                        assert(dir@ == parent(cursor@));
                        let mut destination = base_of(dir, &target);
                        let list = split_pieces(&target);
                        walk_clamped(&mut destination, &list);
                        if !destination.starts_with(&root) {
                            Step::Failed(ResolveError::LinkEscapes(guest_path))
                        } else if hops + 1 >= MAX_SYMLINK_HOPS {
                            name_next(root, guest_path, logical, out, next)
                        } else {
                            let stage = Stage::Chasing {
                                out,
                                next,
                                cursor: destination,
                                hops: hops + 1,
                            };
                            Step::Ask(Resolution { root, guest_path, logical, stage })
                        }
                    },
                }
            },
            Stage::Walking { out, at, ahead, hops } => {
                let link = match answer {
                    Answer::Link(l) => l,
                    _ => Link::Plain,
                };
                let mut rest = ahead;
                let name = rest.remove(0);
                let ghost before = pieces_of(ahead@);
                proof {
                    assert(pieces_of(rest@) =~= before.drop_first());
                    assert(name@ == before[0]);
                    assert(all_slashless(before.drop_first()));
                    assert(path::is_name(name@));
                }
                match link {
                    Link::Plain => {
                        let mut place = at;
                        proof {
                            lemma_pushed_names(at@, name@);
                        }
                        place.push(&name);
                        advance(root, guest_path, logical, out, place, rest, hops)
                    },
                    Link::Unreadable(m) => Step::Failed(ResolveError::Host(m)),
                    Link::To(target) => {
                        if hops >= MAX_SYMLINK_HOPS {
                            return Step::Done(out);
                        }
                        let base = base_of(at, &target);
                        let mut list = split_pieces(&target);
                        let ghost front = list@;
                        let ghost back = rest@;
                        list.append(&mut rest);
                        proof {
                            assert(pieces_of(list@) =~= pieces_of(front) + pieces_of(back));
                            assert(all_slashless(pieces_of(list@))) by {
                                path::lemma_pieces_without_slash(target@);
                            }
                        }
                        advance(root, guest_path, logical, out, base, list, hops + 1)
                    },
                }
            },
        }
    }
}

proof fn lemma_pushed_names(at: Names, name: Seq<u8>)
    requires
        path::all_names(at),
        path::is_name(name),
    ensures
        path::all_names(at.push(name)),
{
    assert forall|i: int| 0 <= i < at.push(name).len() implies path::is_name(
        #[trigger] at.push(name)[i],
    ) by {
        if i < at.len() {
            assert(at.push(name)[i] == at[i]);
        }
    }
}

/// Where a walk along the target of a link in `dir` begins.
fn base_of(dir: HostPath, target: &[u8]) -> (r: HostPath)
    requires
        dir.wf(),
    ensures
        r@ == link_base(dir@, target@),
        r.wf(),
{
    if target.len() > 0 && target[0] == SLASH {
        HostPath::root_dir()
    } else {
        dir
    }
}

/// The names of `p` from the one at `from` on.
fn names_from(p: &HostPath, from: usize) -> (r: Vec<Vec<u8>>)
    requires
        p.wf(),
        from <= p@.len(),
    ensures
        pieces_of(r@) == p@.skip(from as int),
        all_slashless(pieces_of(r@)),
{
    let mut list: Vec<Vec<u8>> = Vec::new();
    let depth: usize = p.depth();
    assert(pieces_of(list@) =~= p@.subrange(from as int, from as int));
    for i in from..depth
        invariant
            from <= depth,
            depth == p@.len(),
            depth == p.names@.len(),
            pieces_of(list@) == p@.subrange(from as int, i as int),
    {
        let ghost before = pieces_of(list@);
        list.push(copy_bytes(&p.names[i]));
        proof {
            assert(pieces_of(list@) =~= before.push(p@[i as int]));
            assert(p@.subrange(from as int, i + 1) =~= before.push(p@[i as int]));
        }
    }
    assert(pieces_of(list@) =~= p@.skip(from as int));
    list
}

/// Walks from `at` along `ahead`, up to the first name in it.
fn settle(at: HostPath, ahead: Vec<Vec<u8>>) -> (r: (HostPath, Vec<Vec<u8>>))
    requires
        at.wf(),
        all_slashless(pieces_of(ahead@)),
    ensures
        (r.0@, pieces_of(r.1@)) == settled(at@, pieces_of(ahead@)),
        r.0.wf(),
        all_slashless(pieces_of(r.1@)),
        r.1@.len() > 0 ==> path::goes_down(pieces_of(r.1@)[0]),
{
    let mut place = at;
    let mut rest = ahead;
    while rest.len() > 0
        invariant
            place.wf(),
            all_slashless(pieces_of(rest@)),
            settled(place@, pieces_of(rest@)) == settled(at@, pieces_of(ahead@)),
        decreases rest@.len(),
    {
        let ghost before = pieces_of(rest@);
        match classify(&rest[0]) {
            Piece::Down => {
                return (place, rest);
            },
            Piece::Stay => {},
            Piece::Up => {
                let ghost above = place@;
                place.pop();
                proof {
                    path::lemma_step_names(above, before[0]);
                }
            },
        }
        rest.remove(0);
        assert(pieces_of(rest@) =~= before.drop_first());
    }
    (place, rest)
}

/// The next question on the way along `ahead`, or the end.
fn advance(
    root: HostPath,
    guest_path: String,
    logical: HostPath,
    out: HostPath,
    at: HostPath,
    ahead: Vec<Vec<u8>>,
    hops: usize,
) -> (r: Step)
    requires
        root.wf(),
        logical.wf(),
        logical_path(root@, guest_path@) == Some(logical@),
        out.wf(),
        root@.is_prefix_of(out@),
        at.wf(),
        all_slashless(pieces_of(ahead@)),
        hops <= MAX_SYMLINK_HOPS,
    ensures
        r.model() == advanced(
            root@,
            guest_path@,
            out@,
            at@,
            pieces_of(ahead@),
            hops as int,
        ),
        r.wf(root@, guest_path@, logical@),
{
    let (place, rest) = settle(at, ahead);
    if rest.len() > 0 {
        let stage = Stage::Walking { out, at: place, ahead: rest, hops };
        Step::Ask(Resolution { root, guest_path, logical, stage })
    } else if place.starts_with(&root) {
        Step::Done(out)
    } else {
        Step::Failed(ResolveError::LinkEscapes(guest_path))
    }
}

/// The question about the name at `next`, below `out`, or the first one of the walk
/// along all of `out`.
fn name_next(
    root: HostPath,
    guest_path: String,
    logical: HostPath,
    out: HostPath,
    next: usize,
) -> (r: Step)
    requires
        root.wf(),
        logical.wf(),
        logical_path(root@, guest_path@) == Some(logical@),
        out.wf(),
        next <= logical@.len(),
        root@.is_prefix_of(out@),
    ensures
        r.model() == named(root@, guest_path@, logical@, out@, next as int),
        r.wf(root@, guest_path@, logical@),
{
    if next < logical.depth() {
        let mut below = out;
        proof {
            lemma_pushed(root@, logical@, below@, next as int);
        }
        below.push(&logical.names[next]);
        let cursor = below.copied();
        let stage = Stage::Chasing { out: below, next: next + 1, cursor, hops: 0 };
        Step::Ask(Resolution { root, guest_path, logical, stage })
    } else {
        let ahead = names_from(&out, root.depth());
        let at = root.copied();
        advance(root, guest_path, logical, out, at, ahead, 0)
    }
}

/// Settling leaves no more ahead than there was.
proof fn lemma_settled_len(at: Names, ahead: Pieces)
    ensures
        settled(at, ahead).1.len() <= ahead.len(),
    decreases ahead.len(),
{
    if ahead.len() > 0 && !path::goes_down(ahead[0]) {
        lemma_settled_len(path::stepped_clamped(at, ahead[0]), ahead.drop_first());
    }
}

impl FsSandbox {
    /// Begin to resolve a guest-supplied path to a host path that is guaranteed
    /// to live under the root. Ends at once where the path escapes.
    ///
    /// Strategy:
    ///  - Leading slashes count for nothing: guest paths are relative to the mount.
    ///  - Logically normalise `.` / `..` without touching the file system.
    ///  - Ask for the canonical form of the deepest existing ancestor, and
    ///    verify that it is under the root.
    ///  - Append the remaining names. Each may still be a link that dangles: every
    ///    link of the chain that begins there must point into the root.
    ///  - Walk to the new path as the host would: the way must end under the root.
    ///
    /// Only slashes cut a path into names. The guarantee is for hosts on which every
    /// name without a slash is one entry of a directory; on a host that also cuts at
    /// backslashes, names that hold one have to be refused before they are used.
    pub fn resolve(&self, guest_path: &str) -> (r: Step)
        requires
            self.wf(),
        ensures
            r.model() == first_step(self.dir@, guest_path@),
            logical_path(self.dir@, guest_path@) matches Some(logical) ==> r.wf(
                self.dir@,
                guest_path@,
                logical,
            ),
    {
        let list = split_pieces(guest_path.as_bytes());
        let mut logical = self.dir.copied();
        if !walk(&mut logical, &list) || !logical.starts_with(&self.dir) {
            return Step::Failed(ResolveError::Escapes(owned(guest_path)));
        }
        let depth = logical.depth();
        Step::Ask(
            Resolution {
                root: self.dir.copied(),
                guest_path: owned(guest_path),
                logical,
                stage: Stage::Probing(depth),
            },
        )
    }
}

// ---------------------------------------------------------------------------
// Laws
// ---------------------------------------------------------------------------

/// A host file system that stays as it is while a path is resolved, and in which every
/// name without a slash, backslashes included, is one entry of a directory.
pub struct FsModel {
    pub exists: spec_fn(Names) -> bool,
    pub canonical: spec_fn(Names) -> Result<Names, Seq<char>>,
    pub link: spec_fn(Names) -> LinkModel,
}

impl FsModel {
    /// What this file system answers at a stage.
    pub open spec fn reply(self, logical: Names, stage: StageModel) -> AnswerModel {
        match stage {
            StageModel::Probing(n) => AnswerModel::Exists((self.exists)(logical.take(n))),
            StageModel::Canonicalizing(n) => AnswerModel::Canonical(
                (self.canonical)(logical.take(n)),
            ),
            StageModel::Chasing { cursor, .. } => AnswerModel::Link((self.link)(cursor)),
            StageModel::Walking { at, ahead, .. } => AnswerModel::Link(
                (self.link)(at.push(ahead[0])),
            ),
        }
    }

    /// Canonical paths of this file system hold only names.
    pub open spec fn wf(self) -> bool {
        forall|p: Names|
            #![trigger (self.canonical)(p)]
            (self.canonical)(p) matches Ok(c) ==> path::all_names(c)
    }

    /// Where walking from the directory `at` along `ahead` leads, each link on the way
    /// followed, and how many of `left` links may be followed then; `None` where
    /// there are more links, or one that cannot be read.
    pub open spec fn led(self, at: Names, ahead: Pieces, left: int) -> Option<(Names, int)>
        decreases left, ahead.len(),
    {
        if ahead.len() == 0 {
            Some((at, left))
        } else if !path::goes_down(ahead[0]) {
            self.led(path::stepped_clamped(at, ahead[0]), ahead.drop_first(), left)
        } else {
            match (self.link)(at.push(ahead[0])) {
                LinkModel::Plain => self.led(at.push(ahead[0]), ahead.drop_first(), left),
                LinkModel::Unreadable(_) => None,
                LinkModel::To(target) => if left <= 0 {
                    None
                } else {
                    self.led(
                        link_base(at, target),
                        path::pieces(target) + ahead.drop_first(),
                        left - 1,
                    )
                },
            }
        }
    }

    /// The place of `led`.
    pub open spec fn led_to(self, at: Names, ahead: Pieces, left: int) -> Option<Names> {
        match self.led(at, ahead, left) {
            Some((place, _)) => Some(place),
            None => None,
        }
    }

    /// Where opening or creating a path ends; `None` where the host gives up, since
    /// there are more links on the way than the 40 that it follows.
    pub open spec fn reached(self, p: Names) -> Option<Names> {
        self.led_to(Seq::empty(), p, 40)
    }

    /// There is no link on the way to `place`, nor is it one.
    pub open spec fn is_free_of_links(self, place: Names) -> bool {
        forall|i: int| 0 < i <= place.len() ==> (self.link)(#[trigger] place.take(i)) is Plain
    }

    /// The canonical form of a path is where the path leads, with no link on the way
    /// to it. Nothing is asked of what this file system says to exist.
    pub open spec fn follows_links(self) -> bool {
        forall|p: Names|
            #![trigger (self.canonical)(p)]
            (self.canonical)(p) matches Ok(c) ==> self.reached(p) == Some(c)
                && self.is_free_of_links(c)
    }

    /// One of the first `left` links of the chain that begins at `cursor` points out
    /// of `root`, going by the texts of the links.
    pub open spec fn points_out(self, root: Names, cursor: Names, left: int) -> bool
        decreases left,
    {
        left > 0 && match (self.link)(cursor) {
            LinkModel::To(target) => {
                let destination = link_destination(parent(cursor), target);
                !root.is_prefix_of(destination) || self.points_out(root, destination, left - 1)
            },
            _ => false,
        }
    }

    /// The host can say of every path that exists what its canonical form is, and of
    /// every link where it points.
    pub open spec fn is_readable(self) -> bool {
        &&& (self.exists)(Seq::empty())
        &&& forall|p: Names| #[trigger] (self.exists)(p) ==> (self.canonical)(p) is Ok
        &&& forall|p: Names| (#[trigger] (self.link)(p)) !is Unreadable
    }
}

/// The counters of a stage are in range.
pub open spec fn in_range(stage: StageModel, depth: int) -> bool {
    match stage {
        StageModel::Probing(n) => 0 <= n <= depth,
        StageModel::Canonicalizing(n) => 0 <= n <= depth,
        StageModel::Chasing { next, hops, .. } => 0 < next <= depth && 0 <= hops
            < MAX_SYMLINK_HOPS,
        StageModel::Walking { ahead, hops, .. } => 0 <= hops <= MAX_SYMLINK_HOPS && ahead.len()
            > 0,
    }
}

/// How far a step is from the end: by the stage, then by the names that are left,
/// then by the links that may still be followed, then by the pieces that are ahead.
pub open spec fn distance(step: StepModel, depth: int) -> (int, int, int, int) {
    match step {
        StepModel::Ask(StageModel::Probing(n)) => (n + 4, 0, 0, 0),
        StepModel::Ask(StageModel::Canonicalizing(_)) => (3, 0, 0, 0),
        StepModel::Ask(StageModel::Chasing { next, hops, .. }) => (
            2,
            depth - next,
            MAX_SYMLINK_HOPS - hops,
            0,
        ),
        StepModel::Ask(StageModel::Walking { ahead, hops, .. }) => (
            1,
            0,
            MAX_SYMLINK_HOPS - hops,
            ahead.len() as int,
        ),
        _ => (0, 0, 0, 0),
    }
}

/// `a` comes before `b`: the first of the four numbers that differs is smaller in
/// `a`, and none of `a` is negative.
pub open spec fn is_nearer(a: (int, int, int, int), b: (int, int, int, int)) -> bool {
    &&& a.0 >= 0 && a.1 >= 0 && a.2 >= 0 && a.3 >= 0
    &&& a.0 < b.0 || (a.0 == b.0 && (a.1 < b.1 || (a.1 == b.1 && (a.2 < b.2 || (a.2 == b.2 && a.3
        < b.3)))))
}

/// How resolving ends on `fs`, from `step` on.
pub open spec fn outcome(
    fs: FsModel,
    root: Names,
    guest: Seq<char>,
    logical: Names,
    step: StepModel,
) -> Result<Names, ErrorModel>
    decreases
            distance(step, logical.len() as int).0,
            distance(step, logical.len() as int).1,
            distance(step, logical.len() as int).2,
            distance(step, logical.len() as int).3,
{
    match step {
        StepModel::Done(p) => Ok(p),
        StepModel::Failed(e) => Err(e),
        StepModel::Ask(stage) => if in_range(stage, logical.len() as int) {
            proof {
                each_answer_brings_the_end_nearer(
                    root,
                    guest,
                    logical,
                    stage,
                    fs.reply(logical, stage),
                );
            }
            outcome(
                fs,
                root,
                guest,
                logical,
                next_step(root, guest, logical, stage, fs.reply(logical, stage)),
            )
        } else {
            Err(ErrorModel::Host(Seq::empty()))
        },
    }
}

/// How resolving `guest` under `root` ends on `fs`.
pub open spec fn resolved_in(fs: FsModel, root: Names, guest: Seq<char>) -> Result<
    Names,
    ErrorModel,
> {
    match logical_path(root, guest) {
        Some(logical) => outcome(fs, root, guest, logical, first_step(root, guest)),
        None => Err(ErrorModel::Escapes(guest)),
    }
}

/// Resolving comes to an end whatever the host answers: each answer brings it
/// nearer.
pub proof fn each_answer_brings_the_end_nearer(
    root: Names,
    guest: Seq<char>,
    logical: Names,
    stage: StageModel,
    answer: AnswerModel,
)
    requires
        in_range(stage, logical.len() as int),
        answers(stage, answer),
    ensures
        ({
            let next = next_step(root, guest, logical, stage, answer);
            &&& is_nearer(
                distance(next, logical.len() as int),
                distance(StepModel::Ask(stage), logical.len() as int),
            )
            &&& next matches StepModel::Ask(s) ==> in_range(s, logical.len() as int)
        }),
{
    match (stage, answer) {
        (StageModel::Walking { at, ahead, .. }, AnswerModel::Link(LinkModel::Plain)) => {
            lemma_settled_len(at.push(ahead[0]), ahead.drop_first());
        },
        _ => {},
    }
}

/// Whatever the host answers, a path that resolving ends with is the root or
/// lies below it.
pub proof fn a_finished_step_is_under_the_root(
    root: Names,
    guest: Seq<char>,
    logical: Names,
    stage: StageModel,
    answer: AnswerModel,
)
    requires
        stage_wf(root, logical, stage),
        answers(stage, answer),
    ensures
        next_step(root, guest, logical, stage, answer) matches StepModel::Done(p)
            ==> root.is_prefix_of(p),
{
}

proof fn lemma_longer(root: Names, out: Names, more: Names)
    requires
        root.is_prefix_of(out),
    ensures
        root.is_prefix_of(out + more),
{
    assert((out + more).take(root.len() as int) =~= out.take(root.len() as int));
}

proof fn lemma_pushed(root: Names, logical: Names, out: Names, next: int)
    requires
        0 <= next < logical.len(),
        path::all_names(logical),
        path::all_names(out),
        root.is_prefix_of(out),
    ensures
        root.is_prefix_of(out.push(logical[next])),
        path::all_names(out.push(logical[next])),
{
    assert(out.push(logical[next]) =~= out + seq![logical[next]]);
    lemma_longer(root, out, seq![logical[next]]);
    lemma_pushed_names(out, logical[next]);
}

// ---------------------------------------------------------------------------
// Laws: where a path leads
// ---------------------------------------------------------------------------

/// Settling changes nothing about where a walk leads.
proof fn lemma_settled_leads(fs: FsModel, at: Names, ahead: Pieces, left: int)
    ensures
        ({
            let (place, rest) = settled(at, ahead);
            &&& fs.led(at, ahead, left) == fs.led(place, rest, left)
            &&& rest.len() <= ahead.len()
            &&& rest.len() > 0 ==> path::goes_down(rest[0])
        }),
    decreases ahead.len(),
{
    if ahead.len() > 0 && !path::goes_down(ahead[0]) {
        lemma_settled_leads(
            fs,
            path::stepped_clamped(at, ahead[0]),
            ahead.drop_first(),
            left,
        );
    }
}

/// A walk that ends ends in the same place where more links may be followed.
proof fn lemma_led_with_more(fs: FsModel, at: Names, ahead: Pieces, left: int, more: int)
    requires
        left <= more,
        fs.led_to(at, ahead, left) is Some,
    ensures
        fs.led_to(at, ahead, more) == fs.led_to(at, ahead, left),
    decreases left, ahead.len(),
{
    if ahead.len() > 0 {
        let rest = ahead.drop_first();
        if !path::goes_down(ahead[0]) {
            lemma_led_with_more(fs, path::stepped_clamped(at, ahead[0]), rest, left, more);
        } else {
            match (fs.link)(at.push(ahead[0])) {
                LinkModel::Plain => {
                    lemma_led_with_more(fs, at.push(ahead[0]), rest, left, more);
                },
                LinkModel::Unreadable(_) => {},
                LinkModel::To(target) => {
                    lemma_led_with_more(
                        fs,
                        link_base(at, target),
                        path::pieces(target) + rest,
                        left - 1,
                        more - 1,
                    );
                },
            }
        }
    }
}

/// A walk along two lists is a walk along the first and then along the second.
proof fn lemma_led_on(fs: FsModel, at: Names, first: Pieces, second: Pieces, left: int)
    ensures
        fs.led(at, first + second, left) == match fs.led(at, first, left) {
            Some((place, l)) => fs.led(place, second, l),
            None => None,
        },
        fs.led(at, first, left) matches Some((_, l)) ==> l <= left,
    decreases left, first.len(),
{
    let all = first + second;
    if first.len() == 0 {
        assert(all =~= second);
    } else {
        let rest = first.drop_first();
        assert(all[0] == first[0]);
        assert(all.drop_first() =~= rest + second);
        if !path::goes_down(first[0]) {
            lemma_led_on(fs, path::stepped_clamped(at, first[0]), rest, second, left);
        } else {
            match (fs.link)(at.push(first[0])) {
                LinkModel::Plain => {
                    lemma_led_on(fs, at.push(first[0]), rest, second, left);
                },
                LinkModel::Unreadable(_) => {},
                LinkModel::To(target) => {
                    if left > 0 {
                        let list = path::pieces(target);
                        assert(list + (rest + second) =~= (list + rest) + second);
                        lemma_led_on(fs, link_base(at, target), list + rest, second, left - 1);
                    }
                },
            }
        }
    }
}

/// A walk from the root directory along a place without links on the way to it, and
/// on along `tail`, is the walk from there.
proof fn lemma_free_way_on(fs: FsModel, place: Names, tail: Pieces, left: int)
    requires
        path::all_names(place),
        fs.is_free_of_links(place),
    ensures
        fs.led(Seq::empty(), place + tail, left) == fs.led(place, tail, left),
{
    lemma_free_way(fs, place, tail, left, 0);
    assert(place.take(0) =~= Seq::empty());
    assert(place.skip(0) =~= place);
}

/// The same of a walk from a directory that lies on that way.
proof fn lemma_free_way_from(fs: FsModel, root: Names, place: Names, tail: Pieces, left: int)
    requires
        path::all_names(place),
        fs.is_free_of_links(place),
        root.is_prefix_of(place),
    ensures
        fs.led(root, (place + tail).skip(root.len() as int), left) == fs.led(place, tail, left),
{
    let depth = root.len() as int;
    lemma_free_way(fs, place, tail, left, depth);
    assert(place.take(depth) =~= root);
    assert((place + tail).skip(depth) =~= place.skip(depth) + tail);
}

/// The way to a place without links on it leads there.
proof fn lemma_free_way(fs: FsModel, place: Names, tail: Pieces, left: int, i: int)
    requires
        path::all_names(place),
        fs.is_free_of_links(place),
        0 <= i <= place.len(),
    ensures
        fs.led(place.take(i), place.skip(i) + tail, left) == fs.led(place, tail, left),
    decreases place.len() - i,
{
    let ahead = place.skip(i) + tail;
    if i == place.len() {
        assert(place.take(i) =~= place);
        assert(ahead =~= tail);
    } else {
        assert(ahead[0] == place[i]);
        assert(path::is_name(place[i]));
        assert(place.take(i).push(place[i]) =~= place.take(i + 1));
        assert(ahead.drop_first() =~= place.skip(i + 1) + tail);
        lemma_free_way(fs, place, tail, left, i + 1);
    }
}

/// `result` is how resolving may end whose walk leads to `found`: with `whole`, if
/// that place is under the root; and with no other error than that a link escapes,
/// if the host can read everything.
spec fn ends_well(
    fs: FsModel,
    root: Names,
    guest: Seq<char>,
    whole: Names,
    found: Option<Names>,
    result: Result<Names, ErrorModel>,
) -> bool {
    match result {
        Ok(p) => p == whole && (found matches Some(q) ==> root.is_prefix_of(q)),
        Err(e) => fs.is_readable() ==> e == ErrorModel::LinkEscapes(guest),
    }
}

proof fn lemma_advanced_ends(
    fs: FsModel,
    root: Names,
    guest: Seq<char>,
    logical: Names,
    out: Names,
    at: Names,
    ahead: Pieces,
    hops: int,
)
    requires
        0 <= hops <= MAX_SYMLINK_HOPS,
    ensures
        ends_well(
            fs,
            root,
            guest,
            out,
            fs.led_to(at, ahead, MAX_SYMLINK_HOPS - hops),
            outcome(fs, root, guest, logical, advanced(root, guest, out, at, ahead, hops)),
        ),
    decreases MAX_SYMLINK_HOPS - hops, ahead.len(),
{
    let left = MAX_SYMLINK_HOPS - hops;
    let (place, rest) = settled(at, ahead);
    lemma_settled_leads(fs, at, ahead, left);
    if rest.len() > 0 {
        let q = place.push(rest[0]);
        let stage = StageModel::Walking { out, at: place, ahead: rest, hops };
        let after = next_step(root, guest, logical, stage, fs.reply(logical, stage));
        assert(outcome(fs, root, guest, logical, StepModel::Ask(stage)) == outcome(
            fs,
            root,
            guest,
            logical,
            after,
        ));
        match (fs.link)(q) {
            LinkModel::Plain => {
                lemma_advanced_ends(fs, root, guest, logical, out, q, rest.drop_first(), hops);
            },
            LinkModel::Unreadable(_) => {},
            LinkModel::To(target) => {
                if hops < MAX_SYMLINK_HOPS {
                    lemma_advanced_ends(
                        fs,
                        root,
                        guest,
                        logical,
                        out,
                        link_base(place, target),
                        path::pieces(target) + rest.drop_first(),
                        hops + 1,
                    );
                }
            },
        }
    }
}

/// Where the walk from the root along `whole` leads.
spec fn led_from_root(fs: FsModel, root: Names, whole: Names) -> Option<Names> {
    fs.led_to(root, whole.skip(root.len() as int), MAX_SYMLINK_HOPS as int)
}

proof fn lemma_named_ends(
    fs: FsModel,
    root: Names,
    guest: Seq<char>,
    logical: Names,
    out: Names,
    next: int,
)
    requires
        0 <= next <= logical.len(),
    ensures
        ({
            let whole = out + logical.skip(next);
            ends_well(
                fs,
                root,
                guest,
                whole,
                led_from_root(fs, root, whole),
                outcome(fs, root, guest, logical, named(root, guest, logical, out, next)),
            )
        }),
    decreases logical.len() - next, 0int,
{
    if next < logical.len() {
        let below = out.push(logical[next]);
        assert(below + logical.skip(next + 1) =~= out + logical.skip(next));
        lemma_chasing_ends(fs, root, guest, logical, below, next + 1, below, 0);
    } else {
        assert(out + logical.skip(next) =~= out);
        lemma_advanced_ends(
            fs,
            root,
            guest,
            logical,
            out,
            root,
            out.skip(root.len() as int),
            0,
        );
    }
}

proof fn lemma_chasing_ends(
    fs: FsModel,
    root: Names,
    guest: Seq<char>,
    logical: Names,
    out: Names,
    next: int,
    cursor: Names,
    hops: int,
)
    requires
        0 < next <= logical.len(),
        0 <= hops < MAX_SYMLINK_HOPS,
    ensures
        ({
            let whole = out + logical.skip(next);
            ends_well(
                fs,
                root,
                guest,
                whole,
                led_from_root(fs, root, whole),
                outcome(
                    fs,
                    root,
                    guest,
                    logical,
                    StepModel::Ask(StageModel::Chasing { out, next, cursor, hops }),
                ),
            )
        }),
    decreases logical.len() - next, MAX_SYMLINK_HOPS - hops,
{
    let stage = StageModel::Chasing { out, next, cursor, hops };
    let after = next_step(root, guest, logical, stage, fs.reply(logical, stage));
    assert(outcome(fs, root, guest, logical, StepModel::Ask(stage)) == outcome(
        fs,
        root,
        guest,
        logical,
        after,
    ));
    lemma_named_ends(fs, root, guest, logical, out, next);
    match (fs.link)(cursor) {
        LinkModel::To(target) => {
            if hops + 1 < MAX_SYMLINK_HOPS {
                let destination = link_destination(parent(cursor), target);
                lemma_chasing_ends(
                    fs,
                    root,
                    guest,
                    logical,
                    out,
                    next,
                    destination,
                    hops + 1,
                );
            }
        },
        _ => {},
    }
}

/// The deepest ancestor of `logical` that exists, looking from its first `n` names
/// upwards.
pub open spec fn deepest(fs: FsModel, logical: Names, n: int) -> Option<int>
    decreases n,
{
    if (fs.exists)(logical.take(n)) {
        Some(n)
    } else if n <= 0 {
        None
    } else {
        deepest(fs, logical, n - 1)
    }
}

proof fn lemma_deepest(fs: FsModel, logical: Names, n: int)
    requires
        0 <= n <= logical.len(),
    ensures
        deepest(fs, logical, n) matches Some(m) ==> 0 <= m <= n && (fs.exists)(logical.take(m)),
        deepest(fs, logical, n) is None ==> !(fs.exists)(Seq::empty()),
    decreases n,
{
    if !(fs.exists)(logical.take(n)) {
        if n > 0 {
            lemma_deepest(fs, logical, n - 1);
        } else {
            assert(logical.take(0) =~= Seq::empty());
        }
    }
}

/// Looking for the deepest ancestor ends with its canonical form.
proof fn lemma_probing(fs: FsModel, root: Names, guest: Seq<char>, logical: Names, n: int)
    requires
        0 <= n <= logical.len(),
    ensures
        outcome(fs, root, guest, logical, StepModel::Ask(StageModel::Probing(n))) == match deepest(
            fs,
            logical,
            n,
        ) {
            None => Err(ErrorModel::NoAncestor(logical)),
            Some(m) => match (fs.canonical)(logical.take(m)) {
                Err(cause) => Err(ErrorModel::Canonicalize(logical.take(m), cause)),
                Ok(c) => if !root.is_prefix_of(c) {
                    Err(ErrorModel::EscapesBySymlink(guest))
                } else if m >= logical.len() {
                    Ok(c)
                } else {
                    outcome(fs, root, guest, logical, named(root, guest, logical, c, m))
                },
            },
        },
    decreases n,
{
    reveal_with_fuel(outcome, 3);
    if !(fs.exists)(logical.take(n)) && n > 0 {
        lemma_probing(fs, root, guest, logical, n - 1);
    }
}

proof fn lemma_joined_names(front: Names, logical: Names, n: int)
    requires
        path::all_names(front),
        path::all_names(logical),
        0 <= n <= logical.len(),
    ensures
        path::all_names(front + logical.skip(n)),
{
    let whole = front + logical.skip(n);
    assert forall|i: int| 0 <= i < whole.len() implies path::is_name(#[trigger] whole[i]) by {
        if i < front.len() {
            assert(whole[i] == front[i]);
        } else {
            assert(whole[i] == logical[n + (i - front.len())]);
        }
    }
}

/// The path that is handed out: the canonical form of the deepest ancestor, and the
/// rest of the logical path below it.
proof fn lemma_handed_out(fs: FsModel, root: Names, guest: Seq<char>, logical: Names)
    requires
        fs.wf(),
        path::all_names(root),
        logical_path(root, guest) == Some(logical),
    ensures
        path::all_names(logical),
        match resolved_in(fs, root, guest) {
            Ok(p) => root.is_prefix_of(p) && path::all_names(p),
            Err(e) => fs.is_readable() ==> e == ErrorModel::LinkEscapes(guest) || e
                == ErrorModel::EscapesBySymlink(guest),
        },
{
    let bytes = vstd::utf8::encode_utf8(guest);
    path::lemma_pieces_without_slash(bytes);
    path::lemma_walk_names(root, path::pieces(bytes));
    let depth = logical.len() as int;
    lemma_probing(fs, root, guest, logical, depth);
    lemma_deepest(fs, logical, depth);
    if deepest(fs, logical, depth) is Some {
        let n = deepest(fs, logical, depth)->0;
        if (fs.canonical)(logical.take(n)) is Ok {
            let c = (fs.canonical)(logical.take(n))->Ok_0;
            let whole = c + logical.skip(n);
            lemma_named_ends(fs, root, guest, logical, c, n);
            if n == logical.len() {
                assert(whole =~= c);
            }
            if root.is_prefix_of(c) {
                lemma_longer(root, c, logical.skip(n));
                lemma_joined_names(c, logical, n);
            }
        }
    }
}

/// Where the path that is handed out leads, and the path that the guest named.
proof fn lemma_resolved_leads(fs: FsModel, root: Names, guest: Seq<char>, logical: Names)
    requires
        fs.wf(),
        fs.follows_links(),
        path::all_names(root),
        logical_path(root, guest) == Some(logical),
    ensures
        resolved_in(fs, root, guest) matches Ok(p) ==> {
            &&& fs.reached(p) matches Some(q) ==> root.is_prefix_of(q)
            &&& fs.reached(logical) matches Some(q) ==> root.is_prefix_of(q)
        },
{
    lemma_handed_out(fs, root, guest, logical);
    let depth = logical.len() as int;
    let hops = MAX_SYMLINK_HOPS as int;
    lemma_probing(fs, root, guest, logical, depth);
    lemma_deepest(fs, logical, depth);
    if deepest(fs, logical, depth) is Some {
        let n = deepest(fs, logical, depth)->0;
        let front = logical.take(n);
        let tail = logical.skip(n);
        if (fs.canonical)(front) is Ok {
            let c = (fs.canonical)(front)->Ok_0;
            let whole = c + tail;
            let none = Seq::<Seq<u8>>::empty();
            assert(fs.reached(front) == Some(c));
            lemma_free_way_on(fs, c, tail, hops);
            assert(front + tail =~= logical);
            lemma_led_on(fs, none, front, tail, hops);
            let (_, left) = fs.led(none, front, hops)->0;
            if fs.reached(logical) is Some {
                lemma_led_with_more(fs, c, tail, left, hops);
            }
            if root.is_prefix_of(c) {
                lemma_free_way_from(fs, root, c, tail, hops);
                lemma_named_ends(fs, root, guest, logical, c, n);
                if n == logical.len() {
                    assert(tail =~= none);
                    assert(whole =~= c);
                }
            }
        }
    }
}

/// A path that is handed out is the root or lies below it, and no `..` is left in
/// it, whatever the host answers.
pub proof fn a_resolved_path_is_under_the_root(fs: FsModel, root: Names, guest: Seq<char>)
    requires
        fs.wf(),
        path::all_names(root),
    ensures
        resolved_in(fs, root, guest) matches Ok(p) ==> root.is_prefix_of(p) && path::all_names(p),
{
    if logical_path(root, guest) is Some {
        lemma_handed_out(fs, root, guest, logical_path(root, guest)->0);
    }
}

/// No guest path leaves the sandbox: opening or creating a path that was handed out
/// ends under the root, whatever links are on the way, those that dangle included.
pub proof fn nothing_outside_the_root_is_reached(fs: FsModel, root: Names, guest: Seq<char>)
    requires
        fs.wf(),
        fs.follows_links(),
        path::all_names(root),
    ensures
        resolved_in(fs, root, guest) matches Ok(p) ==> (fs.reached(p) matches Some(q)
            ==> root.is_prefix_of(q)),
{
    if logical_path(root, guest) is Some {
        lemma_resolved_leads(fs, root, guest, logical_path(root, guest)->0);
    }
}

/// Any escape through links is rejected: a guest path that leads out of the root,
/// through links that exist or dangle, at its end or in the middle, gives an error,
/// and one that says so where the host can read all there is.
pub proof fn a_path_that_leads_out_is_rejected(
    fs: FsModel,
    root: Names,
    guest: Seq<char>,
    logical: Names,
    place: Names,
)
    requires
        fs.wf(),
        fs.follows_links(),
        path::all_names(root),
        logical_path(root, guest) == Some(logical),
        fs.reached(logical) == Some(place),
        !root.is_prefix_of(place),
    ensures
        resolved_in(fs, root, guest) matches Err(e) && (fs.is_readable() ==> e
            == ErrorModel::LinkEscapes(guest) || e == ErrorModel::EscapesBySymlink(guest)),
{
    lemma_handed_out(fs, root, guest, logical);
    lemma_resolved_leads(fs, root, guest, logical);
}

proof fn lemma_chain_out(
    fs: FsModel,
    root: Names,
    guest: Seq<char>,
    logical: Names,
    out: Names,
    next: int,
    cursor: Names,
    hops: int,
)
    requires
        0 < next <= logical.len(),
        0 <= hops < MAX_SYMLINK_HOPS,
        fs.points_out(root, cursor, MAX_SYMLINK_HOPS - hops) || outcome(
            fs,
            root,
            guest,
            logical,
            named(root, guest, logical, out, next),
        ) is Err,
    ensures
        outcome(
            fs,
            root,
            guest,
            logical,
            StepModel::Ask(StageModel::Chasing { out, next, cursor, hops }),
        ) is Err,
    decreases MAX_SYMLINK_HOPS - hops,
{
    let stage = StageModel::Chasing { out, next, cursor, hops };
    let after = next_step(root, guest, logical, stage, fs.reply(logical, stage));
    assert(outcome(fs, root, guest, logical, StepModel::Ask(stage)) == outcome(
        fs,
        root,
        guest,
        logical,
        after,
    ));
    match (fs.link)(cursor) {
        LinkModel::To(target) => {
            let destination = link_destination(parent(cursor), target);
            assert(!fs.points_out(root, destination, 0));
            if root.is_prefix_of(destination) && hops + 1 < MAX_SYMLINK_HOPS {
                lemma_chain_out(fs, root, guest, logical, out, next, destination, hops + 1);
            }
        },
        _ => {},
    }
}

proof fn lemma_name_out(
    fs: FsModel,
    root: Names,
    guest: Seq<char>,
    logical: Names,
    out: Names,
    next: int,
    i: int,
)
    requires
        0 <= next < i <= logical.len(),
        fs.points_out(root, out + logical.subrange(next, i), MAX_SYMLINK_HOPS as int),
    ensures
        outcome(fs, root, guest, logical, named(root, guest, logical, out, next)) is Err,
    decreases i - next,
{
    let below = out.push(logical[next]);
    if next + 1 < i {
        assert(below + logical.subrange(next + 1, i) =~= out + logical.subrange(next, i));
        lemma_name_out(fs, root, guest, logical, below, next + 1, i);
    } else {
        assert(below =~= out + logical.subrange(next, i));
    }
    lemma_chain_out(fs, root, guest, logical, below, next + 1, below, 0);
}

/// A name that does not exist yet is rejected, and so is all behind it, where a chain
/// of links begins at it and one of the first 40 points out of the root: it does not matter
/// where the chain really leads, nor that the host would give up on the way.
pub proof fn a_chain_that_points_out_is_rejected(
    fs: FsModel,
    root: Names,
    guest: Seq<char>,
    logical: Names,
    n: int,
    ancestor: Names,
    i: int,
)
    requires
        logical_path(root, guest) == Some(logical),
        deepest(fs, logical, logical.len() as int) == Some(n),
        (fs.canonical)(logical.take(n)) == Ok::<Names, Seq<char>>(ancestor),
        n < i <= logical.len(),
        fs.points_out(root, ancestor + logical.subrange(n, i), 40),
    ensures
        resolved_in(fs, root, guest) matches Err(e) && (fs.is_readable() ==> e
            == if root.is_prefix_of(ancestor) {
            ErrorModel::LinkEscapes(guest)
        } else {
            ErrorModel::EscapesBySymlink(guest)
        }),
{
    lemma_probing(fs, root, guest, logical, logical.len() as int);
    lemma_deepest(fs, logical, logical.len() as int);
    lemma_name_out(fs, root, guest, logical, ancestor, n, i);
    lemma_named_ends(fs, root, guest, logical, ancestor, n);
}

/// A path that `..` leads out of the mount is rejected, whatever the file system.
pub proof fn a_lexical_escape_is_rejected(fs: FsModel, root: Names, guest: Seq<char>)
    requires
        logical_path(root, guest) is None,
    ensures
        resolved_in(fs, root, guest) == Err::<Names, ErrorModel>(ErrorModel::Escapes(guest)),
        first_step(root, guest) == StepModel::Failed(ErrorModel::Escapes(guest)),
{
}

/// A path that exists resolves to its canonical form where that is under the
/// root, and is rejected where a link takes it elsewhere.
pub proof fn an_existing_path_resolves_to_its_canonical_form(
    fs: FsModel,
    root: Names,
    guest: Seq<char>,
    logical: Names,
)
    requires
        logical_path(root, guest) == Some(logical),
        (fs.exists)(logical),
    ensures
        resolved_in(fs, root, guest) == match (fs.canonical)(logical) {
            Ok(p) => if root.is_prefix_of(p) {
                Ok(p)
            } else {
                Err(ErrorModel::EscapesBySymlink(guest))
            },
            Err(cause) => Err(ErrorModel::Canonicalize(logical, cause)),
        },
{
    assert(logical.take(logical.len() as int) =~= logical);
    lemma_probing(fs, root, guest, logical, logical.len() as int);
}

/// A walk along a path without links ends with that path.
proof fn lemma_new_way(
    fs: FsModel,
    root: Names,
    guest: Seq<char>,
    logical: Names,
    out: Names,
    i: int,
)
    requires
        path::all_names(out),
        root.is_prefix_of(out),
        fs.is_free_of_links(out),
        0 <= i <= out.len(),
    ensures
        outcome(
            fs,
            root,
            guest,
            logical,
            advanced(root, guest, out, out.take(i), out.skip(i), 0),
        ) == Ok::<Names, ErrorModel>(out),
    decreases out.len() - i,
{
    let at = out.take(i);
    let ahead = out.skip(i);
    if i == out.len() {
        assert(at =~= out);
    } else {
        assert(ahead[0] == out[i] && path::is_name(out[i]));
        assert(settled(at, ahead) == (at, ahead));
        assert(at.push(ahead[0]) =~= out.take(i + 1));
        assert(ahead.drop_first() =~= out.skip(i + 1));
        lemma_new_way(fs, root, guest, logical, out, i + 1);
        let stage = StageModel::Walking { out, at, ahead, hops: 0 };
        assert(fs.reply(logical, stage) == AnswerModel::Link(LinkModel::Plain));
        assert(next_step(root, guest, logical, stage, fs.reply(logical, stage)) == advanced(
            root,
            guest,
            out,
            out.take(i + 1),
            out.skip(i + 1),
            0,
        ));
    }
}

proof fn lemma_new_names(
    fs: FsModel,
    root: Names,
    guest: Seq<char>,
    logical: Names,
    out: Names,
    next: int,
)
    requires
        0 <= next <= logical.len(),
        root.is_prefix_of(out),
        path::all_names(out + logical.skip(next)),
        fs.is_free_of_links(out + logical.skip(next)),
    ensures
        outcome(fs, root, guest, logical, named(root, guest, logical, out, next)) == Ok::<
            Names,
            ErrorModel,
        >(out + logical.skip(next)),
    decreases logical.len() - next,
{
    let whole = out + logical.skip(next);
    if next == logical.len() {
        assert(whole =~= out);
        lemma_new_way(fs, root, guest, logical, out, root.len() as int);
        assert(out.take(root.len() as int) =~= root);
    } else {
        let name = logical[next];
        let below = out.push(name);
        assert(whole.take(out.len() as int + 1) =~= below);
        assert((fs.link)(whole.take(out.len() as int + 1)) is Plain);
        assert(below + logical.skip(next + 1) =~= whole);
        lemma_longer(root, out, seq![name]);
        assert(out + seq![name] =~= below);
        lemma_new_names(fs, root, guest, logical, below, next + 1);
        let stage = StageModel::Chasing { out: below, next: next + 1, cursor: below, hops: 0 };
        assert(next_step(root, guest, logical, stage, fs.reply(logical, stage)) == named(
            root,
            guest,
            logical,
            below,
            next + 1,
        ));
    }
}

/// A path that does not exist yet resolves to its place below the canonical form of
/// its deepest ancestor that does, where that is under the root and no link dangles
/// on the way.
pub proof fn a_new_path_resolves_below_its_ancestor(
    fs: FsModel,
    root: Names,
    guest: Seq<char>,
    logical: Names,
    n: int,
    ancestor: Names,
)
    requires
        fs.wf(),
        path::all_names(root),
        logical_path(root, guest) == Some(logical),
        deepest(fs, logical, logical.len() as int) == Some(n),
        (fs.canonical)(logical.take(n)) == Ok::<Names, Seq<char>>(ancestor),
        root.is_prefix_of(ancestor),
        fs.is_free_of_links(ancestor + logical.skip(n)),
    ensures
        resolved_in(fs, root, guest) == Ok::<Names, ErrorModel>(ancestor + logical.skip(n)),
{
    let bytes = vstd::utf8::encode_utf8(guest);
    path::lemma_pieces_without_slash(bytes);
    path::lemma_walk_names(root, path::pieces(bytes));
    lemma_probing(fs, root, guest, logical, logical.len() as int);
    lemma_deepest(fs, logical, logical.len() as int);
    let whole = ancestor + logical.skip(n);
    if n == logical.len() {
        assert(whole =~= ancestor);
    } else {
        lemma_joined_names(ancestor, logical, n);
        lemma_new_names(fs, root, guest, logical, ancestor, n);
    }
}

/// Two steps are the same, but for the guest path in an error.
pub open spec fn same_but_error(a: StepModel, b: StepModel) -> bool {
    a == b || (a is Failed && b is Failed)
}

proof fn lemma_guest_text_only_in_errors(
    fs: FsModel,
    root: Names,
    one: Seq<char>,
    other: Seq<char>,
    logical: Names,
    a: StepModel,
    b: StepModel,
)
    requires
        same_but_error(a, b),
    ensures
        match (outcome(fs, root, one, logical, a), outcome(fs, root, other, logical, b)) {
            (Ok(p), Ok(q)) => p == q,
            (Err(_), Err(_)) => true,
            _ => false,
        },
    decreases
            distance(a, logical.len() as int).0,
            distance(a, logical.len() as int).1,
            distance(a, logical.len() as int).2,
            distance(a, logical.len() as int).3,
{
    if a is Ask && in_range(a->Ask_0, logical.len() as int) {
        let stage = a->Ask_0;
        let answer = fs.reply(logical, stage);
        each_answer_brings_the_end_nearer(root, one, logical, stage, answer);
        lemma_guest_text_only_in_errors(
            fs,
            root,
            one,
            other,
            logical,
            next_step(root, one, logical, stage, answer),
            next_step(root, other, logical, stage, answer),
        );
    }
}

/// Absolute guest paths are relative to the mount: a leading slash counts for
/// nothing. With it and without it a path resolves to the same place, or not at all.
pub proof fn a_leading_slash_counts_for_nothing(fs: FsModel, root: Names, guest: Seq<char>)
    ensures
        logical_path(root, seq!['/'] + guest) == logical_path(root, guest),
        match (resolved_in(fs, root, seq!['/'] + guest), resolved_in(fs, root, guest)) {
            (Ok(p), Ok(q)) => p == q,
            (Err(_), Err(_)) => true,
            _ => false,
        },
{
    let whole = seq!['/'] + guest;
    assert(whole.drop_first() =~= guest);
    assert(vstd::utf8::encode_utf8(whole) =~= seq![SLASH] + vstd::utf8::encode_utf8(guest)) by {
        let one = seq!['/'];
        assert(vstd::utf8::is_ascii_chars(one));
        vstd::utf8::is_ascii_chars_encode_utf8(one);
        assert(one.drop_first() =~= Seq::<char>::empty());
        reveal_with_fuel(vstd::utf8::encode_utf8, 2);
        assert(vstd::utf8::encode_utf8(one) =~= vstd::utf8::encode_scalar('/' as u32));
        assert(vstd::utf8::encode_utf8(one) =~= seq![SLASH]);
    }
    let bytes = vstd::utf8::encode_utf8(guest);
    path::lemma_leading_slash_pieces(bytes);
    path::lemma_leading_empty_piece(root, path::pieces(bytes));
    if logical_path(root, guest) is Some {
        let logical = logical_path(root, guest)->0;
        lemma_guest_text_only_in_errors(
            fs,
            root,
            whole,
            guest,
            logical,
            first_step(root, whole),
            first_step(root, guest),
        );
    }
}

// ---------------------------------------------------------------------------
// Laws: what a guest path stands for
// ---------------------------------------------------------------------------

/// The pieces of a text behind which a slash and another text follow.
proof fn lemma_pieces_behind(a: Seq<char>, b: Seq<char>)
    ensures
        path::pieces(vstd::utf8::encode_utf8(a + seq!['/'] + b)) == path::pieces(
            vstd::utf8::encode_utf8(a),
        ) + path::pieces(vstd::utf8::encode_utf8(b)),
{
    let one = seq!['/'];
    lemma_slash_encoded();
    crate::fs_tools::lemma_encoded_behind(a, one);
    crate::fs_tools::lemma_encoded_behind(a + one, b);
    path::a_slash_cuts_a_text_in_two(vstd::utf8::encode_utf8(a), vstd::utf8::encode_utf8(b));
}

proof fn lemma_slash_encoded()
    ensures
        vstd::utf8::encode_utf8(seq!['/']) == seq![47u8],
{
    let one = seq!['/'];
    assert(vstd::utf8::is_ascii_chars(one));
    vstd::utf8::is_ascii_chars_encode_utf8(one);
    assert(vstd::utf8::encode_utf8(one) =~= seq![47u8]);
}

/// The pieces of `..`, of `.` and of nothing.
proof fn lemma_pieces_of_dots()
    ensures
        path::pieces(vstd::utf8::encode_utf8(seq!['.', '.'])) == seq![seq![46u8, 46u8]],
        path::pieces(vstd::utf8::encode_utf8(seq!['.'])) == seq![seq![46u8]],
        path::pieces(vstd::utf8::encode_utf8(Seq::empty())) == seq![Seq::<u8>::empty()],
{
    let two = seq!['.', '.'];
    let one = seq!['.'];
    assert(vstd::utf8::is_ascii_chars(two));
    vstd::utf8::is_ascii_chars_encode_utf8(two);
    assert(vstd::utf8::encode_utf8(two) =~= seq![46u8, 46u8]);
    assert(vstd::utf8::is_ascii_chars(one));
    vstd::utf8::is_ascii_chars_encode_utf8(one);
    assert(vstd::utf8::encode_utf8(one) =~= seq![46u8]);
    path::a_text_without_slashes_is_one_piece(seq![46u8, 46u8]);
    path::a_text_without_slashes_is_one_piece(seq![46u8]);
    path::a_text_without_slashes_is_one_piece(Seq::empty());
    assert(vstd::utf8::encode_utf8(Seq::<char>::empty()) =~= Seq::<u8>::empty());
}

proof fn lemma_pieces_of_name(name: Seq<char>)
    requires
        path::is_name(vstd::utf8::encode_utf8(name)),
    ensures
        path::pieces(vstd::utf8::encode_utf8(name)) == seq![vstd::utf8::encode_utf8(name)],
{
    let bytes = vstd::utf8::encode_utf8(name);
    path::names_are_texts_without_slashes(bytes);
    path::a_text_without_slashes_is_one_piece(bytes);
}

/// A name stands for what it names in the mount, and an empty path for the mount
/// itself.
pub proof fn a_name_stands_for_what_it_names(root: Names, name: Seq<char>)
    requires
        path::is_name(vstd::utf8::encode_utf8(name)),
    ensures
        logical_path(root, name) == Some(root.push(vstd::utf8::encode_utf8(name))),
        logical_path(root, Seq::empty()) == Some(root),
{
    let bytes = vstd::utf8::encode_utf8(name);
    lemma_pieces_of_name(name);
    lemma_pieces_of_dots();
    path::a_walk_goes_down_by_names_and_up_by_dots(root, bytes);
    assert(root.push(bytes).take(root.len() as int) =~= root);
    assert(root.take(root.len() as int) =~= root);
}

/// A guest path goes on behind a slash: what follows is taken from where the path has
/// come to.
pub proof fn a_guest_path_goes_on_behind_a_slash(
    root: Names,
    a: Seq<char>,
    b: Seq<char>,
    p: Names,
    q: Names,
)
    requires
        logical_path(root, a) == Some(p),
        logical_path(p, b) == Some(q),
    ensures
        logical_path(root, a + seq!['/'] + b) == Some(q),
{
    lemma_pieces_behind(a, b);
    path::a_walk_goes_on(
        root,
        path::pieces(vstd::utf8::encode_utf8(a)),
        path::pieces(vstd::utf8::encode_utf8(b)),
    );
    assert(q.take(root.len() as int) =~= q.take(p.len() as int).take(root.len() as int));
}

/// `..` leads back up, as long as that stays in the mount, and `.` and nothing lead
/// nowhere.
pub proof fn dots_lead_up_or_nowhere(root: Names, a: Seq<char>, p: Names)
    requires
        logical_path(root, a) == Some(p),
    ensures
        logical_path(root, a + seq!['/'] + seq!['.', '.']) == if p.len() > root.len() {
            Some(p.drop_last())
        } else {
            None
        },
        logical_path(root, a + seq!['/'] + seq!['.']) == Some(p),
        logical_path(root, a + seq!['/']) == Some(p),
{
    let list = path::pieces(vstd::utf8::encode_utf8(a));
    let up = seq!['.', '.'];
    let here = seq!['.'];
    let none = Seq::<char>::empty();
    lemma_pieces_of_dots();
    lemma_pieces_behind(a, up);
    lemma_pieces_behind(a, here);
    lemma_pieces_behind(a, none);
    assert(a + seq!['/'] + none =~= a + seq!['/']);
    path::a_walk_goes_on(root, list, seq![seq![46u8, 46u8]]);
    path::a_walk_goes_on(root, list, seq![seq![46u8]]);
    path::a_walk_goes_on(root, list, seq![Seq::<u8>::empty()]);
    let name = seq![1u8];
    path::names_are_texts_without_slashes(name);
    path::a_walk_goes_down_by_names_and_up_by_dots(p, name);
    lemma_up(p);
    if p.len() > root.len() {
        assert(p.drop_last().take(root.len() as int) =~= p.take(root.len() as int));
    }
}

/// `..` takes the last name away.
proof fn lemma_up(p: Names)
    ensures
        path::walked(p, seq![seq![46u8, 46u8]]) == if p.len() > 0 {
            Some(p.drop_last())
        } else {
            None
        },
{
    let up = seq![46u8, 46u8];
    path::lemma_one_step(p, up);
    assert(up.len() == 2);
    assert(up =~= seq![path::DOT, path::DOT]);
}

/// A name and the `..` behind it cancel out, wherever in a path they stand: the path
/// is resolved, or refused, as without them.
pub proof fn a_name_and_dots_cancel_out(
    root: Names,
    before: Seq<char>,
    name: Seq<char>,
    after: Seq<char>,
)
    requires
        path::is_name(vstd::utf8::encode_utf8(name)),
    ensures
        logical_path(
            root,
            before + seq!['/'] + name + seq!['/'] + seq!['.', '.'] + seq!['/'] + after,
        ) == logical_path(root, before + seq!['/'] + after),
        logical_path(root, name + seq!['/'] + seq!['.', '.'] + seq!['/'] + after) == logical_path(
            root,
            after,
        ),
{
    let up = seq!['.', '.'];
    let bytes = vstd::utf8::encode_utf8(name);
    let first = path::pieces(vstd::utf8::encode_utf8(before));
    let last = path::pieces(vstd::utf8::encode_utf8(after));
    let pair = seq![bytes] + seq![seq![46u8, 46u8]];
    lemma_pieces_of_name(name);
    lemma_pieces_of_dots();
    lemma_pieces_behind(before, name);
    lemma_pieces_behind(before + seq!['/'] + name, up);
    lemma_pieces_behind(before + seq!['/'] + name + seq!['/'] + up, after);
    lemma_pieces_behind(name, up);
    lemma_pieces_behind(name + seq!['/'] + up, after);
    lemma_pieces_behind(before, after);
    assert(first + seq![bytes] + seq![seq![46u8, 46u8]] =~= first + pair);
    path::a_walk_goes_on(root, first + pair, last);
    path::a_walk_goes_on(root, first, pair);
    path::a_walk_goes_on(root, first, last);
    path::a_walk_goes_on(root, pair, last);
    lemma_pair(root, bytes);
    if path::walked(root, first) is Some {
        lemma_pair(path::walked(root, first)->0, bytes);
    }
}

proof fn lemma_pair(at: Names, name: Seq<u8>)
    requires
        path::is_name(name),
    ensures
        path::walked(at, seq![name] + seq![seq![46u8, 46u8]]) == Some(at),
{
    path::a_walk_goes_on(at, seq![name], seq![seq![46u8, 46u8]]);
    path::a_walk_goes_down_by_names_and_up_by_dots(at, name);
}

/// A path that climbs out of the mount stands for what it would stand for one level
/// higher, if that is in the mount after all; there is nothing above the root
/// directory.
pub proof fn a_climbing_path_must_come_back(dir: Names, name: Seq<u8>, rest: Seq<char>)
    ensures
        logical_path(dir.push(name), seq!['.', '.']) is None,
        logical_path(dir.push(name), seq!['.', '.'] + seq!['/'] + rest) == match logical_path(
            dir,
            rest,
        ) {
            Some(p) => if dir.push(name).is_prefix_of(p) {
                Some(p)
            } else {
                None
            },
            None => None,
        },
        logical_path(Seq::empty(), seq!['.', '.'] + seq!['/'] + rest) is None,
{
    let root = dir.push(name);
    let up = seq!['.', '.'];
    let none = Seq::<Seq<u8>>::empty();
    let list = path::pieces(vstd::utf8::encode_utf8(rest));
    lemma_pieces_of_dots();
    lemma_pieces_behind(up, rest);
    path::a_walk_goes_on(root, seq![seq![46u8, 46u8]], list);
    path::a_walk_goes_on(none, seq![seq![46u8, 46u8]], list);
    lemma_up(root);
    lemma_up(none);
    assert(root.drop_last() =~= dir);
    if path::walked(dir, list) is Some {
        let p = path::walked(dir, list)->0;
        if root.is_prefix_of(p) {
            assert(p.take(dir.len() as int) =~= root.take(dir.len() as int));
            assert(root.take(dir.len() as int) =~= dir);
        }
    }
}

/// Where the text of a link points: an absolute one from the root directory on,
/// wherever the link stands; any other from the directory of the link on.
pub proof fn a_link_points_along_its_text(dir: Names, names: Names)
    requires
        path::all_names(names),
    ensures
        link_destination(dir, path::path_bytes(names)) == names,
        link_base(dir, path::path_bytes(names)) == Seq::<Seq<u8>>::empty(),
        link_destination(dir, path::path_bytes(names).skip(1)) == dir + names,
        names.len() > 0 ==> link_base(dir, path::path_bytes(names).skip(1)) == dir,
{
    let none = Seq::<Seq<u8>>::empty();
    let text = path::path_bytes(names);
    path::a_path_is_read_back(dir, names);
    path::a_path_is_read_back(none, names);
    assert(none + names =~= names);
    let empty = Seq::<u8>::empty();
    assert(text =~= empty + seq![47u8] + text.skip(1));
    path::a_slash_cuts_a_text_in_two(empty, text.skip(1));
    path::a_text_without_slashes_is_one_piece(empty);
    let rest = path::pieces(text.skip(1));
    path::a_walk_goes_on(none, seq![empty], rest);
    let name = seq![1u8];
    path::names_are_texts_without_slashes(name);
    path::a_walk_goes_down_by_names_and_up_by_dots(none, name);
    if names.len() > 0 {
        assert(rest == names);
        path::names_are_texts_without_slashes(names[0]);
        lemma_first_piece(text.skip(1));
        assert(text.skip(1)[0] != 47);
    } else {
        assert(text.skip(1).len() == 0);
    }
}

/// A text whose first piece is not empty does not begin with a slash.
proof fn lemma_first_piece(text: Seq<u8>)
    requires
        path::pieces(text)[0].len() > 0,
    ensures
        text.len() > 0 && text[0] != 47,
{
    if text.len() > 0 && text[0] == 47 {
        let empty = Seq::<u8>::empty();
        assert(text =~= empty + seq![47u8] + text.skip(1));
        path::a_slash_cuts_a_text_in_two(empty, text.skip(1));
        path::a_text_without_slashes_is_one_piece(empty);
        assert(path::pieces(text)[0] == empty);
    }
    if text.len() == 0 {
        path::a_text_without_slashes_is_one_piece(text);
    }
}

/// `..` in the text of a link leads up from the directory of the link, and stays in
/// the root directory.
pub proof fn dots_in_a_link_lead_up(dir: Names, name: Seq<u8>, rest: Seq<u8>)
    requires
        rest.len() == 0 || rest[0] != 47,
    ensures
        link_destination(dir.push(name), seq![46u8, 46u8] + seq![47u8] + rest) == link_destination(
            dir,
            rest,
        ),
        link_destination(Seq::empty(), seq![46u8, 46u8] + seq![47u8] + rest) == link_destination(
            Seq::empty(),
            rest,
        ),
        parent(dir.push(name)) == dir,
{
    let up = seq![46u8, 46u8];
    let none = Seq::<Seq<u8>>::empty();
    let list = path::pieces(rest);
    path::a_text_without_slashes_is_one_piece(up);
    path::a_slash_cuts_a_text_in_two(up, rest);
    path::a_walk_goes_on(dir.push(name), seq![up], list);
    path::a_walk_goes_on(none, seq![up], list);
    assert(dir.push(name).drop_last() =~= dir);
    lemma_up_clamped(dir.push(name));
    lemma_up_clamped(none);
}

proof fn lemma_up_clamped(p: Names)
    ensures
        path::walked_clamped(p, seq![seq![46u8, 46u8]]) == parent(p),
{
    let up = seq![46u8, 46u8];
    path::lemma_one_step(p, up);
    assert(up.len() == 2);
    assert(up =~= seq![path::DOT, path::DOT]);
}

/// A refusal says why and names the path: the guest's, or the host's where the host
/// has a reason of its own.
pub proof fn a_refusal_says_why(guest: Seq<char>, p: Names, cause: Seq<char>)
    ensures
        ErrorModel::Escapes(guest).wording() == "path escapes mount root: "@ + text::debug_form(
            guest,
        ),
        ErrorModel::EscapesBySymlink(guest).wording() == "path escapes mount root (symlink): "@
            + text::debug_form(guest),
        ErrorModel::LinkEscapes(guest).wording() == "symlink target escapes mount root: "@
            + text::debug_form(guest),
        ErrorModel::NoAncestor(p).wording() == "path has no existing ancestor: "@ + path::shown_form(
            path::path_bytes(p),
        ),
        ErrorModel::Canonicalize(p, cause).wording() == "canonicalize "@ + path::shown_form(
            path::path_bytes(p),
        ) + ": "@ + cause,
        ErrorModel::Host(cause).wording() == cause,
{
}

// ---------------------------------------------------------------------------
// Laws: what is handed out
// ---------------------------------------------------------------------------

/// Where no link of a chain points out, chasing it changes nothing.
proof fn lemma_chain_in(
    fs: FsModel,
    root: Names,
    guest: Seq<char>,
    logical: Names,
    out: Names,
    next: int,
    cursor: Names,
    hops: int,
)
    requires
        fs.is_readable(),
        0 < next <= logical.len(),
        0 <= hops < 40,
        !fs.points_out(root, cursor, 40 - hops),
    ensures
        outcome(
            fs,
            root,
            guest,
            logical,
            StepModel::Ask(StageModel::Chasing { out, next, cursor, hops }),
        ) == outcome(fs, root, guest, logical, named(root, guest, logical, out, next)),
    decreases 40 - hops,
{
    let stage = StageModel::Chasing { out, next, cursor, hops };
    let after = next_step(root, guest, logical, stage, fs.reply(logical, stage));
    assert(outcome(fs, root, guest, logical, StepModel::Ask(stage)) == outcome(
        fs,
        root,
        guest,
        logical,
        after,
    ));
    match (fs.link)(cursor) {
        LinkModel::To(target) => {
            if hops + 1 < 40 {
                let destination = link_destination(parent(cursor), target);
                lemma_chain_in(fs, root, guest, logical, out, next, destination, hops + 1);
            }
        },
        _ => {},
    }
}

/// A walk that ends under the root, or that the host gives up, hands out the path.
proof fn lemma_walk_in(
    fs: FsModel,
    root: Names,
    guest: Seq<char>,
    logical: Names,
    out: Names,
    at: Names,
    ahead: Pieces,
    hops: int,
)
    requires
        fs.is_readable(),
        0 <= hops <= 40,
        fs.led_to(at, ahead, 40 - hops) matches Some(q) ==> root.is_prefix_of(q),
    ensures
        outcome(fs, root, guest, logical, advanced(root, guest, out, at, ahead, hops)) == Ok::<
            Names,
            ErrorModel,
        >(out),
    decreases 40 - hops, ahead.len(),
{
    let (place, rest) = settled(at, ahead);
    lemma_settled_leads(fs, at, ahead, 40 - hops);
    if rest.len() > 0 {
        let q = place.push(rest[0]);
        let stage = StageModel::Walking { out, at: place, ahead: rest, hops };
        let after = next_step(root, guest, logical, stage, fs.reply(logical, stage));
        assert(outcome(fs, root, guest, logical, StepModel::Ask(stage)) == outcome(
            fs,
            root,
            guest,
            logical,
            after,
        ));
        match (fs.link)(q) {
            LinkModel::Plain => {
                lemma_walk_in(fs, root, guest, logical, out, q, rest.drop_first(), hops);
            },
            LinkModel::Unreadable(_) => {},
            LinkModel::To(target) => {
                if hops < 40 {
                    lemma_walk_in(
                        fs,
                        root,
                        guest,
                        logical,
                        out,
                        link_base(place, target),
                        path::pieces(target) + rest.drop_first(),
                        hops + 1,
                    );
                }
            },
        }
    }
}

proof fn lemma_names_in(
    fs: FsModel,
    root: Names,
    guest: Seq<char>,
    logical: Names,
    out: Names,
    next: int,
)
    requires
        fs.is_readable(),
        0 <= next <= logical.len(),
        forall|i: int|
            next < i <= logical.len() ==> !fs.points_out(
                root,
                out + #[trigger] logical.subrange(next, i),
                40,
            ),
        fs.led_to(root, (out + logical.skip(next)).skip(root.len() as int), 40) matches Some(q)
            ==> root.is_prefix_of(q),
    ensures
        outcome(fs, root, guest, logical, named(root, guest, logical, out, next)) == Ok::<
            Names,
            ErrorModel,
        >(out + logical.skip(next)),
    decreases logical.len() - next,
{
    if next < logical.len() {
        let below = out.push(logical[next]);
        assert(below =~= out + logical.subrange(next, next + 1));
        assert(below + logical.skip(next + 1) =~= out + logical.skip(next));
        assert forall|i: int| next + 1 < i <= logical.len() implies !fs.points_out(
            root,
            below + #[trigger] logical.subrange(next + 1, i),
            40,
        ) by {
            assert(below + logical.subrange(next + 1, i) =~= out + logical.subrange(next, i));
        }
        lemma_names_in(fs, root, guest, logical, below, next + 1);
        lemma_chain_in(fs, root, guest, logical, below, next + 1, below, 0);
    } else {
        assert(out + logical.skip(next) =~= out);
        lemma_walk_in(fs, root, guest, logical, out, root, out.skip(root.len() as int), 0);
    }
}

/// A path is handed out wherever nothing speaks against it: it is in the mount by its
/// text, its deepest ancestor is so by its canonical form, no chain of links on the
/// way points out with one of its first 40 links, and the way does not lead out. Then
/// it is its canonical ancestor, with the rest of the path below that.
pub proof fn a_path_is_handed_out_where_nothing_leads_out(
    fs: FsModel,
    root: Names,
    guest: Seq<char>,
    logical: Names,
    n: int,
    ancestor: Names,
)
    requires
        fs.is_readable(),
        logical_path(root, guest) == Some(logical),
        deepest(fs, logical, logical.len() as int) == Some(n),
        (fs.canonical)(logical.take(n)) == Ok::<Names, Seq<char>>(ancestor),
        root.is_prefix_of(ancestor),
        forall|i: int|
            n < i <= logical.len() ==> !fs.points_out(
                root,
                ancestor + #[trigger] logical.subrange(n, i),
                40,
            ),
        fs.led_to(root, (ancestor + logical.skip(n)).skip(root.len() as int), 40) matches Some(q)
            ==> root.is_prefix_of(q),
    ensures
        resolved_in(fs, root, guest) == Ok::<Names, ErrorModel>(ancestor + logical.skip(n)),
{
    lemma_probing(fs, root, guest, logical, logical.len() as int);
    lemma_deepest(fs, logical, logical.len() as int);
    lemma_names_in(fs, root, guest, logical, ancestor, n);
    if n == logical.len() {
        assert(ancestor + logical.skip(n) =~= ancestor);
    }
}

/// What stops a path is told: that nothing on the way to it exists, why its ancestor has
/// no canonical form, or that this lies outside.
pub proof fn what_stops_a_path_is_told(
    fs: FsModel,
    root: Names,
    guest: Seq<char>,
    logical: Names,
)
    requires
        logical_path(root, guest) == Some(logical),
    ensures
        match deepest(fs, logical, logical.len() as int) {
            None => resolved_in(fs, root, guest) == Err::<Names, ErrorModel>(
                ErrorModel::NoAncestor(logical),
            ),
            Some(n) => match (fs.canonical)(logical.take(n)) {
                Err(cause) => resolved_in(fs, root, guest) == Err::<Names, ErrorModel>(
                    ErrorModel::Canonicalize(logical.take(n), cause),
                ),
                Ok(ancestor) => !root.is_prefix_of(ancestor) ==> resolved_in(fs, root, guest)
                    == Err::<Names, ErrorModel>(ErrorModel::EscapesBySymlink(guest)),
            },
        },
{
    lemma_probing(fs, root, guest, logical, logical.len() as int);
}

/// A directory that is no root is told so, with the path and the host's reason.
pub proof fn an_unusable_root_is_told(requested: Vec<u8>, cause: String, dir: HostPath)
    ensures
        RootError::Canonicalize(requested, cause).wording() == "canonicalize mount root "@
            + path::shown_form(requested@) + ": "@ + cause@,
        RootError::NotADirectory(dir).wording() == "mount root is not a directory: "@
            + path::shown_form(path::path_bytes(dir@)),
{
}

} // verus!
