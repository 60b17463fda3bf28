//! Routes guest paths to the mount that they belong to.

use crate::fs_sandbox::{FsSandbox, RootError, RootProbe};
use crate::mount::Preopen;
use crate::path;
use crate::path::Names;
use crate::text;
use crate::text::{chars_of, debug_text, is_at, owned, same_text, text_of};
use vstd::prelude::*;
use vstd::string::*;
use vstd::utf8::*;

verus! {

/// A mount: its guest path, and the host directory behind it.
pub type Route = (Seq<char>, Names);

/// The length of a guest path in bytes.
pub open spec fn byte_len(prefix: Seq<char>) -> nat {
    encode_utf8(prefix).len()
}

/// The routes whose guest path has `n` bytes.
pub open spec fn of_len(n: nat) -> spec_fn(Route) -> bool {
    |r: Route| byte_len(r.0) == n
}

/// Longer guest paths come first.
pub open spec fn longer_first(routes: Seq<Route>) -> bool {
    forall|i: int, j: int|
        0 <= i < j < routes.len() ==> byte_len(#[trigger] routes[i].0) >= byte_len(
            #[trigger] routes[j].0,
        )
}

/// `sorted` holds the routes of `given`, longer guest paths first; routes whose
/// guest paths are of the same length keep their order.
pub open spec fn arranged(given: Seq<Route>, sorted: Seq<Route>) -> bool {
    &&& longer_first(sorted)
    &&& forall|n: nat| #[trigger] sorted.filter(of_len(n)) == given.filter(of_len(n))
}

/// What is left of `path` behind the guest path `prefix`, if it lies there.
pub open spec fn tail_behind(prefix: Seq<char>, path: Seq<char>) -> Option<Seq<char>> {
    if path == prefix {
        Some(Seq::empty())
    } else if (prefix + "/"@).is_prefix_of(path) {
        Some(path.skip(prefix.len() as int + 1))
    } else {
        None
    }
}

/// The first mount that `path` belongs to: its host directory, and the rest of
/// the path.
pub open spec fn first_match(routes: Seq<Route>, path: Seq<char>) -> Option<(Names, Seq<char>)>
    decreases routes.len(),
{
    if routes.len() == 0 {
        None
    } else {
        match tail_behind(routes[0].0, path) {
            Some(tail) => Some((routes[0].1, tail)),
            None => first_match(routes.drop_first(), path),
        }
    }
}

/// Routes incoming calls to the matching sandbox, going by the guest path of
/// each mount.
#[derive(Debug, Clone, PartialEq, Eq)]
pub struct FsRouter {
    pub entries: Vec<(String, FsSandbox)>,
}

impl View for FsRouter {
    type V = Seq<Route>;

    open spec fn view(&self) -> Seq<Route> {
        routes_of(self.entries@)
    }
}

/// The value of some entries.
pub open spec fn routes_of(entries: Seq<(String, FsSandbox)>) -> Seq<Route> {
    entries.map_values(|e: (String, FsSandbox)| (e.0@, e.1.dir@))
}

/// The routes for some mounts, given what the host says of their directories.
pub open spec fn routes_for(preopens: Seq<Preopen>, probes: Seq<RootProbe>) -> Seq<Route> {
    Seq::new(preopens.len(), |i: int| (preopens[i].guest_path@, probes[i]->Canonical_0@))
}

/// The host says that this is an existing directory.
pub open spec fn is_usable(probe: RootProbe) -> bool {
    probe matches RootProbe::Canonical(dir, true)
}

/// The directory of `preopen` is rejected with this error.
pub open spec fn is_unusable(preopen: Preopen, probe: RootProbe, e: RootError) -> bool {
    match (probe, e) {
        (RootProbe::Unresolved(cause), RootError::Canonicalize(p, c)) => p@ == path::path_bytes(
            preopen.host_dir@,
        ) && c@ == cause@,
        (RootProbe::Canonical(dir, false), RootError::NotADirectory(d)) => d@ == dir@,
        _ => false,
    }
}

/// Where a guest path of `len` bytes goes among sorted entries: behind those
/// that are not shorter.
fn place_for(entries: &[(String, FsSandbox)], len: usize) -> (r: usize)
    requires
        longer_first(routes_of(entries@)),
    ensures
        r <= entries@.len(),
        forall|i: int|
            0 <= i < r ==> byte_len((#[trigger] routes_of(entries@)[i]).0) >= len,
        forall|i: int|
            r <= i < entries@.len() ==> byte_len((#[trigger] routes_of(entries@)[i]).0) < len,
{
    let ghost routes = routes_of(entries@);
    let mut k: usize = 0;
    while k < entries.len() && entries[k].0.as_str().as_bytes().len() >= len
        invariant
            k <= entries@.len(),
            routes == routes_of(entries@),
            forall|i: int| 0 <= i < k ==> byte_len((#[trigger] routes[i]).0) >= len,
        decreases entries@.len() - k,
    {
        assert(routes[k as int].0 == entries@[k as int].0@);
        k += 1;
    }
    proof {
        if k < entries@.len() {
            assert(routes[k as int].0 == entries@[k as int].0@);
            assert forall|i: int| k <= i < entries@.len() implies byte_len(
                (#[trigger] routes[i]).0,
            ) < len by {
                if k < i {
                    assert(byte_len(routes[k as int].0) >= byte_len(routes[i].0));
                }
            }
        }
    }
    k
}

proof fn lemma_placed(given: Seq<Route>, sorted: Seq<Route>, k: int, e: Route)
    requires
        arranged(given, sorted),
        0 <= k <= sorted.len(),
        forall|i: int| 0 <= i < k ==> byte_len((#[trigger] sorted[i]).0) >= byte_len(e.0),
        forall|i: int| k <= i < sorted.len() ==> byte_len((#[trigger] sorted[i]).0) < byte_len(e.0),
    ensures
        arranged(given.push(e), sorted.insert(k, e)),
{
    let out = sorted.insert(k, e);
    let front = sorted.take(k);
    let back = sorted.skip(k);
    assert(sorted =~= front + back);
    assert(out =~= front + (seq![e] + back));
    assert(given.push(e) =~= given + seq![e]);
    assert forall|n: nat| #[trigger] out.filter(of_len(n)) == given.push(e).filter(of_len(n)) by {
        let p = of_len(n);
        Seq::filter_distributes_over_add(front, back, p);
        Seq::filter_distributes_over_add(front, seq![e] + back, p);
        Seq::filter_distributes_over_add(seq![e], back, p);
        Seq::filter_distributes_over_add(given, seq![e], p);
        assert(sorted.filter(p) == given.filter(p));
        if p(e) {
            assert(back.all(|x: Route| !p(x))) by {
                assert forall|i: int| 0 <= i < back.len() implies !p(back[i]) by {
                    assert(back[i] == sorted[k + i]);
                }
            }
            back.lemma_all_neg_filter_empty(p);
            assert(back.filter(p) =~= Seq::empty());
            assert(out.filter(p) =~= given.push(e).filter(p));
        } else {
            assert(seq![e].all(|x: Route| !p(x)));
            seq![e].lemma_all_neg_filter_empty(p);
            assert(seq![e].filter(p) =~= Seq::empty());
            assert(out.filter(p) =~= given.push(e).filter(p));
        }
    }
    assert forall|i: int, j: int| 0 <= i < j < out.len() implies byte_len(
        #[trigger] out[i].0,
    ) >= byte_len(#[trigger] out[j].0) by {
        let a = if i < k {
            i
        } else {
            i - 1
        };
        let b = if j < k {
            j
        } else {
            j - 1
        };
        if i != k && j != k {
            assert(out[i] == sorted[a] && out[j] == sorted[b]);
            assert(byte_len(sorted[a].0) >= byte_len(sorted[b].0));
        } else if i == k {
            assert(out[j] == sorted[j - 1]);
        } else {
            assert(out[i] == sorted[i]);
        }
    }
}

impl FsRouter {
    /// Longer guest paths come first, and every directory is well formed.
    pub open spec fn wf(&self) -> bool {
        &&& longer_first(self@)
        &&& forall|i: int| 0 <= i < self.entries@.len() ==> (#[trigger] self.entries@[i]).1.wf()
    }

    /// The router for some mounts, given what the host says of their directories.
    pub fn new(preopens: &[Preopen], probes: &[RootProbe]) -> (r: Result<FsRouter, RootError>)
        requires
            preopens@.len() == probes@.len(),
            forall|i: int|
                0 <= i < preopens@.len() ==> (#[trigger] probes@[i] matches RootProbe::Canonical(
                    dir,
                    _,
                ) ==> dir.wf()),
        ensures
            match r {
                Ok(router) => {
                    &&& router.wf()
                    &&& arranged(routes_for(preopens@, probes@), router@)
                    &&& forall|i: int| 0 <= i < probes@.len() ==> is_usable(#[trigger] probes@[i])
                },
                Err(e) => exists|i: int|
                    0 <= i < probes@.len() && #[trigger] is_unusable(preopens@[i], probes@[i], e)
                        && forall|j: int| 0 <= j < i ==> is_usable(#[trigger] probes@[j]),
            },
    {
        let ghost given = routes_for(preopens@, probes@);
        let mut router = FsRouter { entries: Vec::new() };
        proof {
            assert(given.take(0) =~= router@);
        }
        for n in 0..preopens.len()
            invariant
                preopens@.len() == probes@.len(),
                given == routes_for(preopens@, probes@),
                forall|i: int|
                    0 <= i < preopens@.len() ==> (#[trigger] probes@[i] matches RootProbe::Canonical(
                        dir,
                        _,
                    ) ==> dir.wf()),
                router.wf(),
                arranged(given.take(n as int), router@),
                forall|j: int| 0 <= j < n ==> is_usable(#[trigger] probes@[j]),
        {
            let requested = preopens[n].host_dir.to_bytes();
            let probe = match &probes[n] {
                RootProbe::Unresolved(cause) => RootProbe::Unresolved(owned(cause.as_str())),
                RootProbe::Canonical(dir, is_dir) => RootProbe::Canonical(dir.copied(), *is_dir),
            };
            match FsSandbox::new(&requested, probe) {
                Err(e) => {
                    assert(is_unusable(preopens@[n as int], probes@[n as int], e));
                    return Err(e);
                },
                Ok(sandbox) => {
                    let ghost before = router;
                    let guest = owned(preopens[n].guest_path.as_str());
                    let k = place_for(&router.entries, guest.as_str().as_bytes().len());
                    router.entries.insert(k, (guest, sandbox));
                    proof {
                        let e = (guest@, sandbox.dir@);
                        assert(e == given[n as int]);
                        lemma_placed(given.take(n as int), before@, k as int, e);
                        assert(router@ =~= before@.insert(k as int, e));
                        assert(given.take(n + 1) =~= given.take(n as int).push(e));
                        assert forall|i: int| 0 <= i < router.entries@.len() implies (
                        #[trigger] router.entries@[i]).1.wf() by {
                            if i < k {
                                assert(router.entries@[i] == before.entries@[i]);
                            } else if i > k {
                                assert(router.entries@[i] == before.entries@[i - 1]);
                            }
                        }
                    }
                },
            }
        }
        assert(given.take(preopens@.len() as int) =~= given);
        Ok(router)
    }

    /// Pick the mount matching `path` and return its sandbox plus the path
    /// relative to that sandbox.
    pub fn route(&self, path: &str) -> (r: Result<(&FsSandbox, String), String>)
        requires
            self.wf(),
        ensures
            match r {
                Ok((fs, tail)) => fs.wf() && first_match(self@, path@) == Some((fs.dir@, tail@)),
                Err(m) => first_match(self@, path@) is None && m@ == "path "@ + text::debug_form(
                    path@,
                ) + " does not match any preopened mount"@,
            },
    {
        let cs = chars_of(path);
        let total: usize = cs.len();
        assert(self@.skip(0) =~= self@);
        for i in 0..self.entries.len()
            invariant
                self.wf(),
                cs@ == path@,
                total == cs@.len(),
                first_match(self@, path@) == first_match(self@.skip(i as int), path@),
        {
            let ghost rest = self@.skip(i as int);
            let prefix = self.entries[i].0.as_str();
            proof {
                assert(rest[0] == (prefix@, self.entries@[i as int].1.dir@));
                assert(rest.drop_first() =~= self@.skip(i + 1));
                reveal_strlit("/");
            }
            if same_text(path, prefix) {
                return Ok((&self.entries[i].1, String::new()));
            }
            let head = chars_of(prefix);
            let n: usize = head.len();
            let under = is_at(&cs, &head, 0) && n < total && cs[n] == '/';
            proof {
                let whole = prefix@ + "/"@;
                if under {
                    assert(cs@.subrange(0, n as int) == prefix@);
                    assert(path@.take(n + 1) =~= whole);
                }
                if whole.is_prefix_of(path@) {
                    assert(path@.take(n + 1)[n as int] == whole[n as int]);
                    assert(cs@.subrange(0, n as int) =~= prefix@) by {
                        assert(forall|j: int| 0 <= j < n ==> path@.take(n + 1)[j] == whole[j]);
                    }
                }
            }
            if under {
                let tail = text_of(&cs, n + 1, total);
                assert(tail@ =~= path@.skip(n + 1));
                return Ok((&self.entries[i].1, tail));
            }
        }
        assert(self@.skip(self.entries@.len() as int) =~= Seq::empty());
        let mut out = owned("path ");
        out.append(debug_text(path).as_str());
        out.append(" does not match any preopened mount");
        Err(out)
    }
}

// ---------------------------------------------------------------------------
// Laws
// ---------------------------------------------------------------------------

/// Where some mount matches a path, the path goes to a mount that matches, and
/// no mount with a longer guest path matches.
pub proof fn the_longest_match_wins(routes: Seq<Route>, path: Seq<char>, i: int)
    requires
        longer_first(routes),
        0 <= i < routes.len(),
        tail_behind(routes[i].0, path) is Some,
    ensures
        exists|j: int|
            0 <= j < routes.len() && byte_len((#[trigger] routes[j]).0) >= byte_len(routes[i].0)
                && tail_behind(routes[j].0, path) is Some && first_match(routes, path) == Some(
                (routes[j].1, tail_behind(routes[j].0, path)->0),
            ),
    decreases routes.len(),
{
    if tail_behind(routes[0].0, path) is Some {
        assert(byte_len(routes[0].0) >= byte_len(routes[i].0));
    } else {
        let rest = routes.drop_first();
        assert forall|a: int, b: int| 0 <= a < b < rest.len() implies byte_len(
            #[trigger] rest[a].0,
        ) >= byte_len(#[trigger] rest[b].0) by {
            assert(byte_len(routes[a + 1].0) >= byte_len(routes[b + 1].0));
        }
        assert(rest[i - 1] == routes[i]);
        the_longest_match_wins(rest, path, i - 1);
        let j = choose|j: int|
            0 <= j < rest.len() && byte_len((#[trigger] rest[j]).0) >= byte_len(rest[i - 1].0)
                && tail_behind(rest[j].0, path) is Some && first_match(rest, path) == Some(
                (rest[j].1, tail_behind(rest[j].0, path)->0),
            );
        assert(routes[j + 1] == rest[j]);
    }
}

/// Arranging mounts neither adds nor drops one.
pub proof fn arranging_keeps_every_mount(given: Seq<Route>, sorted: Seq<Route>, r: Route)
    requires
        arranged(given, sorted),
    ensures
        given.contains(r) == sorted.contains(r),
{
    let p = of_len(byte_len(r.0));
    assert(sorted.filter(p) == given.filter(p));
    if given.contains(r) {
        let i = choose|i: int| 0 <= i < given.len() && given[i] == r;
        given.lemma_filter_contains(p, i);
        sorted.lemma_filter_contains_rev(p, r);
    }
    if sorted.contains(r) {
        let i = choose|i: int| 0 <= i < sorted.len() && sorted[i] == r;
        sorted.lemma_filter_contains(p, i);
        given.lemma_filter_contains_rev(p, r);
    }
}

/// A path belongs to a mount where it is the guest path of the mount, or goes on
/// behind it with a slash; what is behind the slash is its tail.
pub proof fn a_path_is_its_mount_and_its_tail(prefix: Seq<char>, path: Seq<char>, rest: Seq<char>)
    ensures
        tail_behind(prefix, prefix) == Some(Seq::<char>::empty()),
        tail_behind(prefix, prefix + seq!['/'] + rest) == Some(rest),
        tail_behind(prefix, path) matches Some(tail) ==> path == prefix + seq!['/'] + tail || (path
            == prefix && tail.len() == 0),
{
    reveal_strlit("/");
    assert("/"@ =~= seq!['/']);
    let whole = prefix + seq!['/'] + rest;
    assert(whole.take(prefix.len() as int + 1) =~= prefix + "/"@);
    assert(whole.skip(prefix.len() as int + 1) =~= rest);
    if (prefix + "/"@).is_prefix_of(path) {
        assert(path =~= prefix + seq!['/'] + path.skip(prefix.len() as int + 1));
    }
}

/// A path that some mount matches goes to a mount that was given: one that matches
/// it, and none with a longer guest path does. The tail is the rest of the path.
pub proof fn a_path_goes_to_the_longest_mount(
    given: Seq<Route>,
    sorted: Seq<Route>,
    path: Seq<char>,
    other: Route,
    rest: Seq<char>,
) -> (found: Route)
    requires
        arranged(given, sorted),
        given.contains(other),
        path == other.0 || path == other.0 + seq!['/'] + rest,
    ensures
        given.contains(found),
        encode_utf8(found.0).len() >= encode_utf8(other.0).len(),
        first_match(sorted, path) matches Some((root, tail)) && root == found.1 && (path == found.0
            + seq!['/'] + tail || (path == found.0 && tail.len() == 0)),
{
    a_path_is_its_mount_and_its_tail(other.0, path, rest);
    arranging_keeps_every_mount(given, sorted, other);
    let i = choose|i: int| 0 <= i < sorted.len() && sorted[i] == other;
    the_longest_match_wins(sorted, path, i);
    let j = choose|j: int|
        0 <= j < sorted.len() && byte_len((#[trigger] sorted[j]).0) >= byte_len(sorted[i].0)
            && tail_behind(sorted[j].0, path) is Some && first_match(sorted, path) == Some(
            (sorted[j].1, tail_behind(sorted[j].0, path)->0),
        );
    arranging_keeps_every_mount(given, sorted, sorted[j]);
    a_path_is_its_mount_and_its_tail(sorted[j].0, path, rest);
    sorted[j]
}

/// A path that is no mount's guest path, and goes on behind none with a slash, goes
/// nowhere.
pub proof fn a_path_outside_every_mount_goes_nowhere(routes: Seq<Route>, path: Seq<char>)
    requires
        forall|i: int| 0 <= i < routes.len() ==> path != (#[trigger] routes[i]).0,
        forall|i: int|
            0 <= i < routes.len() ==> !((#[trigger] routes[i]).0 + seq!['/']).is_prefix_of(path),
    ensures
        first_match(routes, path) is None,
    decreases routes.len(),
{
    reveal_strlit("/");
    assert("/"@ =~= seq!['/']);
    if routes.len() > 0 {
        let rest = routes.drop_first();
        assert(path != routes[0].0);
        assert forall|i: int| 0 <= i < rest.len() implies path != (#[trigger] rest[i]).0 && !(
        rest[i].0 + seq!['/']).is_prefix_of(path) by {
            assert(rest[i] == routes[i + 1]);
        }
        a_path_outside_every_mount_goes_nowhere(rest, path);
    }
}

/// Of mounts at guest paths of the same length, those that were given first come
/// first.
pub proof fn mounts_of_one_length_keep_their_order(given: Seq<Route>, sorted: Seq<Route>, n: nat)
    requires
        arranged(given, sorted),
    ensures
        sorted.filter(|r: Route| encode_utf8(r.0).len() == n) == given.filter(
            |r: Route| encode_utf8(r.0).len() == n,
        ),
        sorted.len() == given.len(),
{
    let p = |r: Route| encode_utf8(r.0).len() == n;
    assert(p =~= of_len(n));
    assert(sorted.filter(of_len(n)) == given.filter(of_len(n)));
    lemma_as_many(given, sorted);
}

/// Lists that hold as many routes of each length are of the same length.
proof fn lemma_as_many(a: Seq<Route>, b: Seq<Route>)
    requires
        forall|n: nat| #[trigger] b.filter(of_len(n)) == a.filter(of_len(n)),
    ensures
        a.len() == b.len(),
    decreases a.len(),
{
    if a.len() == 0 {
        if b.len() > 0 {
            let n = byte_len(b[0].0);
            b.lemma_filter_contains(of_len(n), 0);
            assert(b.filter(of_len(n)) == a.filter(of_len(n)));
            reveal(Seq::filter);
            assert(a.filter(of_len(n)).len() == 0);
        }
    } else {
        let n = byte_len(a.last().0);
        let e = a.last();
        let front = a.drop_last();
        assert(a =~= front + seq![e]);
        Seq::filter_distributes_over_add(front, seq![e], of_len(n));
        reveal(Seq::filter);
        assert(seq![e].drop_last() =~= Seq::empty());
        assert(seq![e].filter(of_len(n)) =~= seq![e]);
        assert(a.filter(of_len(n)) =~= front.filter(of_len(n)).push(e));
        let k = lemma_last_of(b, of_len(n));
        let left = b.take(k);
        let right = b.skip(k + 1);
        let less = left + right;
        assert(b =~= left + (seq![b[k]] + right));
        assert forall|m: nat| #[trigger] less.filter(of_len(m)) == front.filter(of_len(m)) by {
            let q = of_len(m);
            Seq::filter_distributes_over_add(left, seq![b[k]] + right, q);
            Seq::filter_distributes_over_add(seq![b[k]], right, q);
            Seq::filter_distributes_over_add(left, right, q);
            Seq::filter_distributes_over_add(front, seq![e], q);
            assert(seq![b[k]].drop_last() =~= Seq::empty());
            assert(b.filter(q) == a.filter(q));
            if m == n {
                assert(right.filter(q) =~= Seq::empty());
                assert(b.filter(q) =~= left.filter(q).push(b[k]));
                assert(less.filter(q) =~= b.filter(q).drop_last());
                assert(front.filter(q) =~= a.filter(q).drop_last());
            } else {
                assert(seq![b[k]].filter(q) =~= Seq::empty());
                assert(seq![e].filter(q) =~= Seq::empty());
                assert(less.filter(q) =~= b.filter(q));
                assert(front.filter(q) =~= a.filter(q));
            }
        }
        lemma_as_many(front, less);
    }
}

/// The last place with a route that `p` takes.
proof fn lemma_last_of(b: Seq<Route>, p: spec_fn(Route) -> bool) -> (k: int)
    requires
        b.filter(p).len() > 0,
    ensures
        0 <= k < b.len(),
        p(b[k]),
        b.skip(k + 1).filter(p).len() == 0,
    decreases b.len(),
{
    reveal(Seq::filter);
    if p(b.last()) {
        assert(b.skip(b.len() as int) =~= Seq::empty());
        b.len() - 1
    } else {
        let k = lemma_last_of(b.drop_last(), p);
        assert(b.skip(k + 1).drop_last() =~= b.drop_last().skip(k + 1));
        assert(b.skip(k + 1).last() == b.last());
        k
    }
}

} // verus!
