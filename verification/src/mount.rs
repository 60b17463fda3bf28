//! Preopened host directories and where the guest mounts them.

use crate::path;
use crate::path::{shown_bytes, HostPath};
use crate::text;
use crate::text::{chars_of, debug_text, is_at, owned, rfind_chars, same_text, text_of};
use vstd::prelude::*;
use vstd::string::*;
use vstd::utf8::*;

verus! {

// ---------------------------------------------------------------------------
// Guest paths
// ---------------------------------------------------------------------------

/// `guest` is `dir` or lies below it.
pub open spec fn shadows(guest: Seq<char>, dir: Seq<char>) -> bool {
    guest == dir || (dir + "/"@).is_prefix_of(guest)
}

/// `guest` would shadow a directory that the kernel needs.
pub open spec fn is_reserved(guest: Seq<char>) -> bool {
    ||| shadows(guest, "/"@)
    ||| shadows(guest, "/bin"@)
    ||| shadows(guest, "/dev"@)
    ||| shadows(guest, "/proc"@)
    ||| shadows(guest, "/sys"@)
    ||| shadows(guest, "/usr"@)
}

/// `guest` starts with a slash.
pub open spec fn is_absolute(guest: Seq<char>) -> bool {
    guest.len() > 0 && guest[0] == '/'
}

/// `guest` is a path that a directory can be mounted at.
pub open spec fn is_mountable(guest: Seq<char>) -> bool {
    is_absolute(guest) && !is_reserved(guest)
}

/// Why a host directory was not preopened.
#[derive(Debug, PartialEq, Eq)]
pub enum PreopenError {
    /// The guest path is not absolute.
    NotAbsolute(String),
    /// The guest path shadows a reserved kernel directory.
    Reserved(String),
    /// The host directory could not be made canonical, for this reason.
    Canonicalize(String, String),
}

impl PreopenError {
    /// The wording for this error.
    pub open spec fn wording(&self) -> Seq<char> {
        match self {
            PreopenError::NotAbsolute(g) => "guest mount path "@ + text::debug_form(g@)
                + " must be absolute"@,
            PreopenError::Reserved(g) => "refusing to mount at guest path "@ + text::debug_form(g@)
                + ": shadows reserved kernel dir"@,
            PreopenError::Canonicalize(h, cause) => "canonicalize preopen host dir "@
                + path::shown_form(encode_utf8(h@)) + ": "@ + cause@,
        }
    }

    /// The wording for this error.
    pub fn message(&self) -> (r: String)
        ensures
            r@ == self.wording(),
    {
        match self {
            PreopenError::NotAbsolute(g) => {
                let mut out = owned("guest mount path ");
                out.append(debug_text(g.as_str()).as_str());
                out.append(" must be absolute");
                out
            },
            PreopenError::Reserved(g) => {
                let mut out = owned("refusing to mount at guest path ");
                out.append(debug_text(g.as_str()).as_str());
                out.append(": shadows reserved kernel dir");
                out
            },
            PreopenError::Canonicalize(h, cause) => {
                let mut out = owned("canonicalize preopen host dir ");
                out.append(shown_bytes(h.as_str().as_bytes()).as_str());
                out.append(": ");
                out.append(cause.as_str());
                out
            },
        }
    }
}

/// Whether `guest` is `dir` or lies below it.
fn shadows_dir(guest: &[char], dir: &str) -> (r: bool)
    ensures
        r == shadows(guest@, dir@),
{
    let d = chars_of(dir);
    proof {
        reveal_strlit("/");
        assert("/"@ =~= seq!['/']);
        if (dir@ + "/"@).is_prefix_of(guest@) {
            assert(guest@.take(dir@.len() as int + 1)[dir@.len() as int] == (dir@ + "/"@)[dir@.len() as int]);
            assert(guest@.subrange(0, dir@.len() as int) =~= dir@) by {
                assert(forall|i: int|
                    0 <= i < dir@.len() ==> guest@[i] == guest@.take(dir@.len() as int + 1)[i]);
            }
        }
    }
    if !is_at(guest, &d, 0) {
        assert(guest@ == dir@ ==> guest@.subrange(0, dir@.len() as int) =~= dir@);
        return false;
    }
    assert(guest@.subrange(0, dir@.len() as int) == dir@);
    if guest.len() == d.len() {
        assert(guest@ =~= dir@);
        return true;
    }
    if guest[d.len()] == '/' {
        assert(guest@.take(dir@.len() as int + 1) =~= dir@ + "/"@);
        true
    } else {
        false
    }
}

// ---------------------------------------------------------------------------
// Preopens
// ---------------------------------------------------------------------------

/// A preopened host directory exposed to the guest.
///
/// `host_dir` is canonical and is the sandbox root for every call that the guest
/// issues; `guest_path` is the absolute path inside the guest where `lib/hostfs`
/// mounts it.
#[derive(Debug, Clone, PartialEq, Eq)]
pub struct Preopen {
    pub host_dir: HostPath,
    pub guest_path: String,
}

/// A host directory, as it was named, and a guest path to mount it at.
#[derive(Debug, Clone, PartialEq, Eq)]
pub struct MountSpec {
    pub host_dir: String,
    pub guest_path: String,
}

/// The two parts of a `HOST[:GUEST]` argument. The last colon separates them,
/// but only where an absolute path follows it: host paths may hold colons. Where
/// there is no guest path it is `/host`.
pub open spec fn split_mount(s: Seq<char>) -> (Seq<char>, Seq<char>) {
    match text::rfind(s, ":"@) {
        Some(i) => if is_absolute(s.skip(i + 1)) {
            (s.take(i), s.skip(i + 1))
        } else {
            (s, "/host"@)
        },
        None => (s, "/host"@),
    }
}

/// The verdict on a guest path.
pub open spec fn guest_path_verdict(guest: Seq<char>, r: Result<(), PreopenError>) -> bool {
    match r {
        Ok(_) => is_mountable(guest),
        Err(PreopenError::NotAbsolute(g)) => g@ == guest && !is_absolute(guest),
        Err(PreopenError::Reserved(g)) => g@ == guest && is_absolute(guest) && is_reserved(guest),
        Err(PreopenError::Canonicalize(_, _)) => false,
    }
}

impl Preopen {
    /// A preopen that the guest can mount.
    pub open spec fn wf(&self) -> bool {
        self.host_dir.wf() && is_mountable(self.guest_path@)
    }

    /// Check that `guest_path` is absolute (`/something`) and does not shadow a
    /// reserved kernel directory.
    pub fn check_guest_path(guest_path: &str) -> (r: Result<(), PreopenError>)
        ensures
            guest_path_verdict(guest_path@, r),
    {
        let cs = chars_of(guest_path);
        if cs.len() == 0 || cs[0] != '/' {
            return Err(PreopenError::NotAbsolute(owned(guest_path)));
        }
        if shadows_dir(&cs, "/") || shadows_dir(&cs, "/bin") || shadows_dir(&cs, "/dev")
            || shadows_dir(&cs, "/proc") || shadows_dir(&cs, "/sys") || shadows_dir(&cs, "/usr") {
            return Err(PreopenError::Reserved(owned(guest_path)));
        }
        Ok(())
    }

    /// Construct a preopen. `guest_path` must be absolute (`/something`) and not
    /// shadow a reserved kernel directory; `canonical` is the canonical form of
    /// `host_dir`, or the reason why the host has none.
    pub fn new(host_dir: &str, guest_path: &str, canonical: Result<HostPath, String>) -> (r: Result<
        Preopen,
        PreopenError,
    >)
        requires
            canonical matches Ok(p) ==> p.wf(),
        ensures
            match r {
                Ok(p) => is_mountable(guest_path@) && canonical == Ok::<HostPath, String>(
                    p.host_dir,
                ) && p.guest_path@ == guest_path@ && p.wf(),
                Err(PreopenError::Canonicalize(h, cause)) => is_mountable(guest_path@) && h@
                    == host_dir@ && canonical == Err::<HostPath, String>(cause),
                Err(e) => guest_path_verdict(guest_path@, Err(e)),
            },
    {
        match Preopen::check_guest_path(guest_path) {
            Err(e) => Err(e),
            Ok(_) => match canonical {
                Ok(dir) => Ok(Preopen { host_dir: dir, guest_path: owned(guest_path) }),
                Err(cause) => Err(PreopenError::Canonicalize(owned(host_dir), cause)),
            },
        }
    }

    /// Parse a `HOST[:GUEST]` CLI argument. When `GUEST` is omitted the default
    /// guest mount point is `/host`.
    pub fn parse_cli(s: &str) -> (r: Result<MountSpec, PreopenError>)
        ensures
            match r {
                Ok(m) => (m.host_dir@, m.guest_path@) == split_mount(s@) && is_mountable(
                    m.guest_path@,
                ),
                Err(e) => guest_path_verdict(split_mount(s@).1, Err(e)),
            },
    {
        let cs = chars_of(s);
        let n: usize = cs.len();
        let colon = chars_of(":");
        proof {
            reveal_strlit(":");
            assert(colon@.len() == 1);
        }
        let (host, guest) = match rfind_chars(&cs, &colon) {
            Some(i) => {
                if i + 1 < n && cs[i + 1] == '/' {
                    let host = text_of(&cs, 0, i);
                    let guest = text_of(&cs, i + 1, n);
                    assert(guest@ =~= s@.skip(i + 1));
                    assert(host@ =~= s@.take(i as int));
                    (host, guest)
                } else {
                    (owned(s), owned("/host"))
                }
            },
            None => (owned(s), owned("/host")),
        };
        match Preopen::check_guest_path(guest.as_str()) {
            Ok(_) => Ok(MountSpec { host_dir: host, guest_path: guest }),
            Err(e) => Err(e),
        }
    }
}

/// Two preopens are mounted at the same guest path, the first of them at `i`.
pub open spec fn repeated_at(preopens: Seq<Preopen>, i: int) -> bool {
    &&& 0 <= i < preopens.len()
    &&& exists|j: int|
        i < j < preopens.len() && preopens[i].guest_path@ == (#[trigger] preopens[j]).guest_path@
}

/// Reject duplicate guest paths: two mounts on the same guest path would
/// silently shadow each other. The error names the first path that occurs again.
pub fn check_distinct_mounts(preopens: &[Preopen]) -> (r: Result<(), String>)
    ensures
        match r {
            Ok(_) => forall|i: int| !repeated_at(preopens@, i),
            Err(m) => exists|i: int| #[trigger]
                repeated_at(preopens@, i) && m@ == "duplicate --mount guest path: "@
                    + text::debug_form(preopens@[i].guest_path@) && forall|k: int|
                    0 <= k < i ==> !repeated_at(preopens@, k),
        },
{
    for i in 0..preopens.len()
        invariant
            forall|k: int| 0 <= k < i ==> !repeated_at(preopens@, k),
    {
        for j in i + 1..preopens.len()
            invariant
                0 <= i < preopens@.len(),
                forall|k: int| 0 <= k < i ==> !repeated_at(preopens@, k),
                forall|m: int|
                    i < m < j ==> preopens@[i as int].guest_path@ != (
                    #[trigger] preopens@[m]).guest_path@,
        {
            if same_text(preopens[i].guest_path.as_str(), preopens[j].guest_path.as_str()) {
                assert(repeated_at(preopens@, i as int));
                let mut out = owned("duplicate --mount guest path: ");
                out.append(debug_text(preopens[i].guest_path.as_str()).as_str());
                return Err(out);
            }
        }
    }
    Ok(())
}

// ---------------------------------------------------------------------------
// Laws
// ---------------------------------------------------------------------------

/// A guest path without a colon is read back as it was written after the host
/// directory, however many colons that holds.
pub proof fn an_explicit_guest_path_is_read_back(host: Seq<char>, guest: Seq<char>)
    requires
        is_absolute(guest),
        !guest.contains(':'),
    ensures
        split_mount(host + ":"@ + guest) == (host, guest),
{
    reveal_strlit(":");
    let s = host + ":"@ + guest;
    let i = host.len() as int;
    assert(s.subrange(i, i + 1) =~= ":"@);
    assert forall|j: int| i < j implies !text::occurs_at(s, ":"@, j) by {
        if text::occurs_at(s, ":"@, j) {
            assert(s.subrange(j, j + 1)[0] == ':');
            assert(guest[j - i - 1] == ':');
            assert(guest.contains(guest[j - i - 1]));
        }
    }
    text::lemma_rfind_is(s, ":"@, i);
    assert(s.take(i) =~= host);
    assert(s.skip(i + 1) =~= guest);
}

/// A host directory without a colon is mounted at `/host`, which can be mounted at.
pub proof fn the_default_guest_path_is_host(host: Seq<char>)
    requires
        !host.contains(':'),
    ensures
        split_mount(host) == (host, "/host"@),
        is_mountable("/host"@),
{
    reveal_strlit(":");
    assert forall|j: int| !text::occurs_at(host, ":"@, j) by {
        if text::occurs_at(host, ":"@, j) {
            assert(host.subrange(j, j + 1)[0] == ':');
            assert(host.contains(host[j]));
        }
    }
    reveal_strlit("/host");
    reveal_strlit("/");
    reveal_strlit("/bin");
    reveal_strlit("/dev");
    reveal_strlit("/proc");
    reveal_strlit("/sys");
    reveal_strlit("/usr");
    let g = "/host"@;
    assert(g[1] == 'h');
    assert(("/"@ + "/"@)[1] == '/');
    assert(("/bin"@ + "/"@)[1] == 'b');
    assert(("/dev"@ + "/"@)[1] == 'd');
    assert(("/proc"@ + "/"@)[1] == 'p');
    assert(("/sys"@ + "/"@)[1] == 's');
    assert(("/usr"@ + "/"@)[1] == 'u');
}

/// No mount is at or below a reserved directory.
pub proof fn a_mount_shadows_no_reserved_directory(guest: Seq<char>, dir: Seq<char>, rest: Seq<char>)
    requires
        is_mountable(guest),
        dir == "/"@ || dir == "/bin"@ || dir == "/dev"@ || dir == "/proc"@ || dir == "/sys"@ || dir
            == "/usr"@,
    ensures
        guest != dir,
        guest != dir + "/"@ + rest,
{
    if guest == dir + "/"@ + rest {
        assert(guest.take((dir + "/"@).len() as int) =~= dir + "/"@);
        assert((dir + "/"@).is_prefix_of(guest));
        assert(shadows(guest, dir));
    }
}

/// Any absolute path can be mounted at that neither is a directory which the kernel
/// needs nor lies below one.
pub proof fn every_other_absolute_path_can_be_mounted_at(guest: Seq<char>)
    requires
        guest.len() > 0,
        guest[0] == '/',
        guest != "/"@ && !("/"@ + "/"@).is_prefix_of(guest),
        guest != "/bin"@ && !("/bin"@ + "/"@).is_prefix_of(guest),
        guest != "/dev"@ && !("/dev"@ + "/"@).is_prefix_of(guest),
        guest != "/proc"@ && !("/proc"@ + "/"@).is_prefix_of(guest),
        guest != "/sys"@ && !("/sys"@ + "/"@).is_prefix_of(guest),
        guest != "/usr"@ && !("/usr"@ + "/"@).is_prefix_of(guest),
    ensures
        is_mountable(guest),
{
}

/// A path that does not begin with a slash cannot be mounted at, and is refused for
/// that; a directory that the kernel needs, and any path below it, is refused for that.
pub proof fn a_refused_guest_path_is_told_why(
    guest: Seq<char>,
    dir: Seq<char>,
    rest: Seq<char>,
    r: Result<(), PreopenError>,
)
    requires
        guest_path_verdict(guest, r),
    ensures
        guest.len() == 0 || guest[0] != '/' ==> (r matches Err(PreopenError::NotAbsolute(g)) && g@
            == guest),
        (dir == "/"@ || dir == "/bin"@ || dir == "/dev"@ || dir == "/proc"@ || dir == "/sys"@ || dir
            == "/usr"@) && (guest == dir || guest == dir + "/"@ + rest) ==> (r matches Err(
            PreopenError::Reserved(g),
        ) && g@ == guest),
        r is Ok <==> is_mountable(guest),
{
    reveal_strlit("/");
    reveal_strlit("/bin");
    reveal_strlit("/dev");
    reveal_strlit("/proc");
    reveal_strlit("/sys");
    reveal_strlit("/usr");
    if guest == dir + "/"@ + rest {
        assert(guest.take((dir + "/"@).len() as int) =~= dir + "/"@);
        assert(shadows(guest, dir));
    }
}

/// A colon that no absolute path follows separates nothing: all of it is the host
/// directory, and is mounted at `/host`.
pub proof fn a_colon_before_no_absolute_path_separates_nothing(host: Seq<char>, more: Seq<char>)
    requires
        !more.contains(':'),
        more.len() == 0 || more[0] != '/',
    ensures
        split_mount(host + seq![':'] + more) == (host + seq![':'] + more, "/host"@),
{
    reveal_strlit(":");
    assert(":"@ =~= seq![':']);
    let s = host + seq![':'] + more;
    let i = host.len() as int;
    assert(s.subrange(i, i + 1) =~= ":"@);
    assert forall|j: int| i < j implies !text::occurs_at(s, ":"@, j) by {
        if text::occurs_at(s, ":"@, j) {
            assert(s.subrange(j, j + 1)[0] == ':');
            assert(more[j - i - 1] == ':');
            assert(more.contains(more[j - i - 1]));
        }
    }
    text::lemma_rfind_is(s, ":"@, i);
    assert(s.skip(i + 1) =~= more);
}

/// A guest path that two mounts share is found out, whichever mounts they are, and no
/// other is.
pub proof fn a_shared_guest_path_is_found_out(preopens: Seq<Preopen>, i: int, j: int)
    requires
        0 <= i < j < preopens.len(),
    ensures
        preopens[i].guest_path@ == preopens[j].guest_path@ ==> repeated_at(preopens, i),
        repeated_at(preopens, i) ==> exists|k: int|
            i < k < preopens.len() && preopens[i].guest_path@ == (#[trigger] preopens[k]).guest_path@,
{
}

/// A directory that is not mounted is told why, with the path that is wrong.
pub proof fn a_rejected_mount_is_told_why(path: String, cause: String)
    ensures
        PreopenError::NotAbsolute(path).wording() == "guest mount path "@ + text::debug_form(path@)
            + " must be absolute"@,
        PreopenError::Reserved(path).wording() == "refusing to mount at guest path "@
            + text::debug_form(path@) + ": shadows reserved kernel dir"@,
        PreopenError::Canonicalize(path, cause).wording() == "canonicalize preopen host dir "@
            + path::shown_form(encode_utf8(path@)) + ": "@ + cause@,
{
}

} // verus!
