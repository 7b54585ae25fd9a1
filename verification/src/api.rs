//! What requests are checked for and what they are answered with.

use std::collections::HashMap;

use vstd::prelude::*;

#[allow(unused_imports)]
use crate::clock;
use crate::clock::Timestamp;
use crate::docker::ExecResult;
use crate::error::DenError;
#[allow(unused_imports)]
use crate::error::ErrorView;
#[allow(unused_imports)]
use crate::pool;
#[allow(unused_imports)]
use crate::pool::PoolView;
use crate::pool::{missing, Pool, Reservation};
#[allow(unused_imports)]
use crate::registry;
use crate::registry::Registry;
use crate::sandbox::Sandbox;
#[allow(unused_imports)]
use crate::sandbox::SandboxView;
use crate::scheduler::HostInfo;
#[allow(unused_imports)]
use crate::text;
use crate::text::{chars_of, find_from, has_prefix, join2, join3, same_text, slice};

verus! {

// ---------------------------------------------------------------------------
// Bind mounts
// ---------------------------------------------------------------------------

/// The parts of a bind mount `host:container[:mode]`.
pub struct MountParts {
    pub host: Seq<char>,
    pub container: Seq<char>,
    pub mode: Option<Seq<char>>,
}

/// A bind mount taken apart at its first two colons; `None` without a colon.
pub open spec fn mount_parts(mount: Seq<char>) -> Option<MountParts> {
    let i = text::first_index(mount, ':') as int;
    if i >= mount.len() {
        None
    } else {
        let rest = mount.skip(i + 1);
        let j = text::first_index(rest, ':') as int;
        Some(
            MountParts {
                host: mount.take(i),
                container: rest.take(j),
                mode: if j >= rest.len() {
                    None
                } else {
                    Some(rest.skip(j + 1))
                },
            },
        )
    }
}

/// Whether a path starts at the root.
pub open spec fn absolute(path: Seq<char>) -> bool {
    path.len() > 0 && path[0] == '/'
}

/// The prefix for which a host path may not be mounted, if it has one.
pub open spec fn blocked_prefix(host: Seq<char>) -> Option<Seq<char>> {
    if "/var/run/docker"@.is_prefix_of(host) {
        Some("/var/run/docker"@)
    } else if "/proc"@.is_prefix_of(host) {
        Some("/proc"@)
    } else if "/sys"@.is_prefix_of(host) {
        Some("/sys"@)
    } else if "/dev"@.is_prefix_of(host) {
        Some("/dev"@)
    } else if "/etc"@.is_prefix_of(host) {
        Some("/etc"@)
    } else if "/root"@.is_prefix_of(host) {
        Some("/root"@)
    } else {
        None
    }
}

/// What is wrong with a bind mount, if anything.
pub open spec fn mount_fault(mount: Seq<char>) -> Option<Seq<char>> {
    match mount_parts(mount) {
        None => Some(
            "invalid bind mount format (expected host:container[:mode]): "@ + mount,
        ),
        Some(p) => if !absolute(p.host) || !absolute(p.container) {
            Some("bind mount paths must be absolute: "@ + mount)
        } else if p.container == "/home/sandbox"@ {
            Some("bind mount cannot target /home/sandbox (reserved for volume): "@ + mount)
        } else if blocked_prefix(p.host) is Some {
            Some(
                "bind mount host path blocked ("@ + blocked_prefix(p.host)->0 + "): "@ + mount,
            )
        } else if p.mode is Some && p.mode->0 != "ro"@ && p.mode->0 != "rw"@ {
            Some("bind mount mode must be 'ro' or 'rw': "@ + mount)
        } else {
            None
        },
    }
}

fn find_blocked_prefix(host: &str) -> (r: Option<&'static str>)
    ensures
        match r {
            Some(p) => blocked_prefix(host@) == Some(p@),
            None => blocked_prefix(host@) is None,
        },
{
    if has_prefix(host, "/var/run/docker") {
        Some("/var/run/docker")
    } else if has_prefix(host, "/proc") {
        Some("/proc")
    } else if has_prefix(host, "/sys") {
        Some("/sys")
    } else if has_prefix(host, "/dev") {
        Some("/dev")
    } else if has_prefix(host, "/etc") {
        Some("/etc")
    } else if has_prefix(host, "/root") {
        Some("/root")
    } else {
        None
    }
}

fn is_absolute(path: &str) -> (r: bool)
    ensures
        r == absolute(path@),
{
    path.unicode_len() > 0 && path.get_char(0) == '/'
}

/// Check a bind mount: `host:container` or `host:container:mode`, both paths
/// absolute, the host path under no blocked prefix, the container path not the
/// sandbox home, the mode `ro` or `rw`.
pub fn validate_bind_mount(mount: &str) -> (r: Result<(), DenError>)
    ensures
        match mount_fault(mount@) {
            Some(m) => r is Err && r->Err_0@ == ErrorView::Other(m),
            None => r is Ok,
        },
{
    let chars = chars_of(mount);
    assert(mount@.skip(0) =~= mount@);
    let i = find_from(&chars, 0, ':');
    if i >= chars.len() {
        return Err(
            DenError::Other(
                join2("invalid bind mount format (expected host:container[:mode]): ", mount),
            ),
        );
    }
    let j = find_from(&chars, i + 1, ':');
    let host = slice(mount, 0, i);
    let container = slice(mount, i + 1, j);
    let ghost rest = mount@.skip(i + 1);
    assert(host@ =~= mount@.take(i as int));
    assert(container@ =~= rest.take(j - i - 1));
    if !is_absolute(host.as_str()) || !is_absolute(container.as_str()) {
        return Err(DenError::Other(join2("bind mount paths must be absolute: ", mount)));
    }
    if same_text(container.as_str(), "/home/sandbox") {
        return Err(
            DenError::Other(
                join2("bind mount cannot target /home/sandbox (reserved for volume): ", mount),
            ),
        );
    }
    if let Some(prefix) = find_blocked_prefix(host.as_str()) {
        return Err(
            DenError::Other(
                join2(join3("bind mount host path blocked (", prefix, "): ").as_str(), mount),
            ),
        );
    }
    if j < chars.len() {
        let mode = slice(mount, j + 1, chars.len());
        assert(mode@ =~= rest.skip(j - i));
        if !same_text(mode.as_str(), "ro") && !same_text(mode.as_str(), "rw") {
            return Err(DenError::Other(join2("bind mount mode must be 'ro' or 'rw': ", mount)));
        }
    }
    Ok(())
}

/// What is wrong with the first faulty mount of a list, if there is one.
pub open spec fn first_mount_fault(mounts: Seq<Seq<char>>) -> Option<Seq<char>>
    decreases mounts.len(),
{
    if mounts.len() == 0 {
        None
    } else if mount_fault(mounts[0]) is Some {
        mount_fault(mounts[0])
    } else {
        first_mount_fault(mounts.drop_first())
    }
}

/// Check all bind mounts of a request, in order, up to the first faulty one.
pub fn validate_bind_mounts(mounts: &Vec<String>) -> (r: Result<(), DenError>)
    ensures
        match first_mount_fault(text::texts(mounts@)) {
            Some(m) => r is Err && r->Err_0@ == ErrorView::Other(m),
            None => r is Ok,
        },
{
    let ghost all = text::texts(mounts@);
    let mut i: usize = 0;
    assert(all.skip(0) =~= all);
    while i < mounts.len()
        invariant
            i <= mounts.len(),
            all == text::texts(mounts@),
            first_mount_fault(all) == first_mount_fault(all.skip(i as int)),
        decreases mounts.len() - i,
    {
        assert(all.skip(i as int)[0] == mounts@[i as int]@);
        assert(all.skip(i as int).drop_first() =~= all.skip(i + 1));
        match validate_bind_mount(mounts[i].as_str()) {
            Ok(()) => {},
            Err(e) => {
                return Err(e);
            },
        }
        i += 1;
    }
    Ok(())
}

/// A bind mount that is accepted has both paths absolute, does not cover the
/// sandbox home, reaches none of the blocked host paths and carries no mode but
/// `ro` or `rw`; and every such mount is accepted.
pub proof fn accepted_mount_is_harmless(mount: Seq<char>)
    ensures
        mount_fault(mount) is None <==> {
            &&& mount_parts(mount) is Some
            &&& absolute(mount_parts(mount)->0.host)
            &&& absolute(mount_parts(mount)->0.container)
            &&& mount_parts(mount)->0.container != "/home/sandbox"@
            &&& !"/var/run/docker"@.is_prefix_of(mount_parts(mount)->0.host)
            &&& !"/proc"@.is_prefix_of(mount_parts(mount)->0.host)
            &&& !"/sys"@.is_prefix_of(mount_parts(mount)->0.host)
            &&& !"/dev"@.is_prefix_of(mount_parts(mount)->0.host)
            &&& !"/etc"@.is_prefix_of(mount_parts(mount)->0.host)
            &&& !"/root"@.is_prefix_of(mount_parts(mount)->0.host)
            &&& (mount_parts(mount)->0.mode matches Some(m) ==> m == "ro"@ || m == "rw"@)
        },
{
}

// ---------------------------------------------------------------------------
// File paths
// ---------------------------------------------------------------------------

/// A path component that stands for the directory it is in.
pub open spec fn is_dot(p: Seq<char>) -> bool {
    p.len() == 1 && p[0] == '.'
}

/// A path component that stands for the parent directory.
pub open spec fn is_dot_dot(p: Seq<char>) -> bool {
    p.len() == 2 && p[0] == '.' && p[1] == '.'
}

/// Where a walk along `parts` leads from `at`, both below the sandbox home;
/// `None` where it climbs above the home.
pub open spec fn walk(at: Seq<Seq<char>>, parts: Seq<Seq<char>>) -> Option<Seq<Seq<char>>>
    decreases parts.len(),
{
    if parts.len() == 0 {
        Some(at)
    } else {
        let p = parts[0];
        let rest = parts.drop_first();
        if p.len() == 0 || is_dot(p) {
            walk(at, rest)
        } else if is_dot_dot(p) {
            if at.len() == 0 {
                None
            } else {
                walk(at.drop_last(), rest)
            }
        } else {
            walk(at.push(p), rest)
        }
    }
}

/// The absolute path of `parts` below the sandbox home.
pub open spec fn home_path(parts: Seq<Seq<char>>) -> Seq<char>
    decreases parts.len(),
{
    if parts.len() == 0 {
        "/home/sandbox"@
    } else {
        home_path(parts.drop_last()) + seq!['/'] + parts.last()
    }
}

/// The components below the home that a requested path names; the message where
/// it names none.
pub open spec fn resolved(raw: Seq<char>) -> Result<Seq<Seq<char>>, Seq<char>> {
    let path = text::trim_start(raw, '/');
    if path.len() == 0 {
        Err("empty file path"@)
    } else {
        match walk(Seq::empty(), text::split(path, '/')) {
            Some(parts) => Ok(parts),
            None => Err("path traversal blocked"@),
        }
    }
}

/// A component that can stand in a resolved path.
pub open spec fn plain_part(p: Seq<char>) -> bool {
    p.len() > 0 && !is_dot(p) && !is_dot_dot(p) && !p.contains('/')
}

fn home_path_of(parts: &Vec<String>) -> (r: String)
    ensures
        r@ == home_path(text::texts(parts@)),
{
    let ghost all = text::texts(parts@);
    let mut out = "/home/sandbox".to_string();
    let mut i: usize = 0;
    assert(all.take(0) =~= Seq::empty());
    proof {
        reveal_strlit("/");
        assert("/"@ =~= seq!['/']);
    }
    while i < parts.len()
        invariant
            i <= parts.len(),
            all == text::texts(parts@),
            "/"@ == seq!['/'],
            out@ == home_path(all.take(i as int)),
        decreases parts.len() - i,
    {
        out.append("/");
        out.append(parts[i].as_str());
        assert(all.take(i + 1).drop_last() =~= all.take(i as int));
        i += 1;
    }
    assert(all.take(parts.len() as int) =~= all);
    out
}

/// Resolve a requested file path against the sandbox home. The answer is an
/// absolute path that stays within the home; a path that is empty, or that
/// climbs above the home on its way, is refused.
pub fn sanitize_file_path(raw: &str) -> (r: Result<String, DenError>)
    ensures
        match resolved(raw@) {
            Ok(parts) => r is Ok && r->Ok_0@ == home_path(parts),
            Err(m) => r is Err && r->Err_0@ == ErrorView::Other(m),
        },
{
    let chars = chars_of(raw);
    let n = chars.len();
    let mut pos: usize = 0;
    assert(raw@.skip(0) =~= raw@);
    while pos < n && chars[pos] == '/'
        invariant
            pos <= n == chars.len(),
            chars@ == raw@,
            text::trim_start(raw@, '/') == text::trim_start(raw@.skip(pos as int), '/'),
        decreases n - pos,
    {
        assert(raw@.skip(pos as int).drop_first() =~= raw@.skip(pos + 1));
        pos += 1;
    }
    let ghost path = raw@.skip(pos as int);
    assert(text::trim_start(raw@, '/') == path);
    if pos >= n {
        return Err(DenError::Other("empty file path".to_string()));
    }
    let mut at: Vec<String> = Vec::new();
    let ghost goal = walk(Seq::empty(), text::split(path, '/'));
    assert(text::texts(at@) =~= Seq::empty());
    loop
        invariant
            pos <= n == chars.len(),
            chars@ == raw@,
            path.len() > 0,
            text::trim_start(raw@, '/') == path,
            goal == walk(Seq::empty(), text::split(path, '/')),
            goal == walk(text::texts(at@), text::split(raw@.skip(pos as int), '/')),
        decreases n - pos,
    {
        let end = find_from(&chars, pos, '/');
        let part = slice(raw, pos, end);
        let ghost here = text::texts(at@);
        let ghost left = raw@.skip(pos as int);
        let ghost parts = text::split(left, '/');
        assert(part@ =~= left.take(end - pos));
        proof {
            if end >= n {
                assert(part@ =~= left);
                assert(parts =~= seq![part@]);
                assert(parts.drop_first() =~= Seq::empty());
            } else {
                assert(left.skip(end - pos + 1) =~= raw@.skip(end + 1));
                assert(parts.drop_first() =~= text::split(raw@.skip(end + 1), '/'));
            }
            assert(parts[0] == part@);
        }
        let k = part.as_str().unicode_len();
        if k == 0 || (k == 1 && part.as_str().get_char(0) == '.') {
        } else if k == 2 && part.as_str().get_char(0) == '.' && part.as_str().get_char(1) == '.' {
            if at.len() == 0 {
                return Err(DenError::Other("path traversal blocked".to_string()));
            }
            at.pop();
            assert(text::texts(at@) =~= here.drop_last());
        } else {
            at.push(part);
            assert(text::texts(at@) =~= here.push(part@));
        }
        assert(goal == walk(text::texts(at@), parts.drop_first()));
        if end >= n {
            return Ok(home_path_of(&at));
        }
        pos = end + 1;
    }
}

proof fn lemma_walk_stays_plain(at: Seq<Seq<char>>, parts: Seq<Seq<char>>)
    requires
        forall|i: int| 0 <= i < at.len() ==> plain_part(#[trigger] at[i]),
        forall|i: int| 0 <= i < parts.len() ==> !(#[trigger] parts[i]).contains('/'),
    ensures
        walk(at, parts) matches Some(end) ==> forall|i: int|
            0 <= i < end.len() ==> plain_part(#[trigger] end[i]),
    decreases parts.len(),
{
    if parts.len() > 0 {
        let p = parts[0];
        let rest = parts.drop_first();
        assert forall|i: int| 0 <= i < rest.len() implies !(#[trigger] rest[i]).contains('/') by {
            assert(rest[i] == parts[i + 1]);
        }
        if p.len() == 0 || is_dot(p) {
            lemma_walk_stays_plain(at, rest);
        } else if is_dot_dot(p) {
            if at.len() > 0 {
                lemma_walk_stays_plain(at.drop_last(), rest);
            }
        } else {
            lemma_walk_stays_plain(at.push(p), rest);
        }
    }
}

proof fn lemma_split_has_no_separator(s: Seq<char>, sep: char)
    ensures
        forall|i: int|
            0 <= i < text::split(s, sep).len() ==> !(#[trigger] text::split(s, sep)[i]).contains(
                sep,
            ),
    decreases s.len(),
{
    text::lemma_first_index(s, sep);
    let i = text::first_index(s, sep) as int;
    if i < s.len() {
        let rest = text::split(s.skip(i + 1), sep);
        lemma_split_has_no_separator(s.skip(i + 1), sep);
        assert forall|k: int| 0 <= k < text::split(s, sep).len() implies !(
        #[trigger] text::split(s, sep)[k]).contains(sep) by {
            if k > 0 {
                assert(text::split(s, sep)[k] == rest[k - 1]);
            } else {
                assert(text::split(s, sep)[0] == s.take(i));
            }
        }
    }
}

/// Every path that is let through stays within the sandbox home: it is the home
/// itself or the home followed by components none of which is empty, `.`, `..`
/// or holds a slash.
pub proof fn resolved_path_stays_home(raw: Seq<char>)
    ensures
        resolved(raw) matches Ok(parts) ==> {
            &&& forall|i: int| 0 <= i < parts.len() ==> plain_part(#[trigger] parts[i])
            &&& "/home/sandbox"@.is_prefix_of(home_path(parts))
        },
{
    let path = text::trim_start(raw, '/');
    lemma_split_has_no_separator(path, '/');
    lemma_walk_stays_plain(Seq::empty(), text::split(path, '/'));
    if let Ok(parts) = resolved(raw) {
        lemma_home_prefix(parts);
    }
}

proof fn lemma_home_prefix(parts: Seq<Seq<char>>)
    ensures
        "/home/sandbox"@.is_prefix_of(home_path(parts)),
    decreases parts.len(),
{
    if parts.len() > 0 {
        lemma_home_prefix(parts.drop_last());
        let h = "/home/sandbox"@;
        assert(home_path(parts).subrange(0, h.len() as int) =~= home_path(
            parts.drop_last(),
        ).subrange(0, h.len() as int));
    } else {
        assert("/home/sandbox"@.subrange(0, "/home/sandbox"@.len() as int) =~= "/home/sandbox"@);
    }
}

/// Components with slashes between them.
pub open spec fn joined(parts: Seq<Seq<char>>) -> Seq<char>
    decreases parts.len(),
{
    if parts.len() == 0 {
        Seq::empty()
    } else if parts.len() == 1 {
        parts[0]
    } else {
        parts[0] + seq!['/'] + joined(parts.drop_first())
    }
}

proof fn lemma_split_joined(parts: Seq<Seq<char>>)
    requires
        parts.len() > 0,
        forall|i: int| 0 <= i < parts.len() ==> plain_part(#[trigger] parts[i]),
    ensures
        joined(parts).len() > 0,
        joined(parts)[0] != '/',
        text::split(joined(parts), '/') == parts,
    decreases parts.len(),
{
    let s = joined(parts);
    let p = parts[0];
    assert(plain_part(p));
    assert(p[0] != '/');
    assert forall|k: int| 0 <= k < p.len() implies s[k] != '/' by {
        assert(s[k] == p[k]);
    }
    text::lemma_first_index_is(s, '/', p.len() as int);
    if parts.len() == 1 {
        assert(text::split(s, '/') =~= parts);
    } else {
        let rest = parts.drop_first();
        assert forall|i: int| 0 <= i < rest.len() implies plain_part(#[trigger] rest[i]) by {
            assert(rest[i] == parts[i + 1]);
        }
        lemma_split_joined(rest);
        assert(s.take(p.len() as int) =~= p);
        assert(s.skip(p.len() as int + 1) =~= joined(rest));
        assert(text::split(s, '/') =~= parts);
    }
}

proof fn lemma_walk_plain(at: Seq<Seq<char>>, parts: Seq<Seq<char>>)
    requires
        forall|i: int| 0 <= i < parts.len() ==> plain_part(#[trigger] parts[i]),
    ensures
        walk(at, parts) == Some(at + parts),
    decreases parts.len(),
{
    if parts.len() == 0 {
        assert(at + parts =~= at);
    } else {
        let rest = parts.drop_first();
        assert(plain_part(parts[0]));
        assert forall|i: int| 0 <= i < rest.len() implies plain_part(#[trigger] rest[i]) by {
            assert(rest[i] == parts[i + 1]);
        }
        lemma_walk_plain(at.push(parts[0]), rest);
        assert(at.push(parts[0]) + rest =~= at + parts);
    }
}

/// A path of plain components, with or without a slash before it, names the file
/// with that path below the home.
pub proof fn plain_path_is_kept(parts: Seq<Seq<char>>)
    requires
        parts.len() > 0,
        forall|i: int| 0 <= i < parts.len() ==> plain_part(#[trigger] parts[i]),
    ensures
        resolved(joined(parts)) == Ok::<Seq<Seq<char>>, Seq<char>>(parts),
        resolved(seq!['/'] + joined(parts)) == Ok::<Seq<Seq<char>>, Seq<char>>(parts),
{
    let s = joined(parts);
    lemma_split_joined(parts);
    lemma_walk_plain(Seq::empty(), parts);
    assert(Seq::<Seq<char>>::empty() + parts =~= parts);
    assert((seq!['/'] + s).drop_first() =~= s);
}

// ---------------------------------------------------------------------------
// Content types
// ---------------------------------------------------------------------------

/// Content type of a file with extension `ext`.
pub open spec fn mime_of(ext: Seq<char>) -> Seq<char> {
    if ext == "txt"@ || ext == "log"@ || ext == "md"@ || ext == "csv"@ {
        "text/plain; charset=utf-8"@
    } else if ext == "json"@ {
        "application/json"@
    } else if ext == "html"@ || ext == "htm"@ {
        "text/html"@
    } else if ext == "js"@ || ext == "mjs"@ {
        "text/javascript"@
    } else if ext == "css"@ {
        "text/css"@
    } else if ext == "xml"@ {
        "application/xml"@
    } else if ext == "pdf"@ {
        "application/pdf"@
    } else if ext == "png"@ {
        "image/png"@
    } else if ext == "jpg"@ || ext == "jpeg"@ {
        "image/jpeg"@
    } else if ext == "gif"@ {
        "image/gif"@
    } else if ext == "svg"@ {
        "image/svg+xml"@
    } else if ext == "py"@ || ext == "rs"@ || ext == "ts"@ || ext == "tsx"@ || ext == "jsx"@ || ext
        == "sh"@ || ext == "yaml"@ || ext == "yml"@ || ext == "toml"@ {
        "text/plain; charset=utf-8"@
    } else {
        "application/octet-stream"@
    }
}

/// What follows the last `sep` of `s`; all of `s` where there is none.
pub fn tail_after(s: &str, sep: char) -> (r: String)
    ensures
        r@ == text::after_last(s@, sep),
{
    let chars = chars_of(s);
    let n = chars.len();
    let mut start: usize = n;
    assert(s@.take(n as int) =~= s@);
    assert(s@.skip(n as int) =~= Seq::empty());
    assert(text::after_last(s@, sep) =~= text::after_last(s@.take(start as int), sep) + s@.skip(
        start as int,
    ));
    while start > 0 && chars[start - 1] != sep
        invariant
            start <= n == chars.len(),
            chars@ == s@,
            text::after_last(s@, sep) == text::after_last(s@.take(start as int), sep) + s@.skip(
                start as int,
            ),
        decreases start,
    {
        let ghost cut = s@.take(start as int);
        assert(cut.drop_last() =~= s@.take(start - 1));
        assert(cut.last() == s@[start - 1]);
        assert(text::after_last(cut, sep) + s@.skip(start as int) =~= text::after_last(
            s@.take(start - 1),
            sep,
        ) + s@.skip(start - 1));
        start -= 1;
    }
    proof {
        let cut = s@.take(start as int);
        if start > 0 {
            assert(cut.last() == sep);
        }
        assert(text::after_last(cut, sep) =~= Seq::empty());
        assert(s@.subrange(start as int, n as int) =~= text::after_last(s@, sep));
    }
    slice(s, start, n)
}

/// Content type of a file, by what follows the last dot of its path.
pub fn guess_mime(path: &str) -> (r: String)
    ensures
        r@ == mime_of(text::after_last(path@, '.')),
{
    let ext = tail_after(path, '.');
    let e = ext.as_str();
    let mime = if same_text(e, "txt") || same_text(e, "log") || same_text(e, "md") || same_text(
        e,
        "csv",
    ) {
        "text/plain; charset=utf-8"
    } else if same_text(e, "json") {
        "application/json"
    } else if same_text(e, "html") || same_text(e, "htm") {
        "text/html"
    } else if same_text(e, "js") || same_text(e, "mjs") {
        "text/javascript"
    } else if same_text(e, "css") {
        "text/css"
    } else if same_text(e, "xml") {
        "application/xml"
    } else if same_text(e, "pdf") {
        "application/pdf"
    } else if same_text(e, "png") {
        "image/png"
    } else if same_text(e, "jpg") || same_text(e, "jpeg") {
        "image/jpeg"
    } else if same_text(e, "gif") {
        "image/gif"
    } else if same_text(e, "svg") {
        "image/svg+xml"
    } else if same_text(e, "py") || same_text(e, "rs") || same_text(e, "ts") || same_text(e, "tsx")
        || same_text(e, "jsx") || same_text(e, "sh") || same_text(e, "yaml") || same_text(e, "yml")
        || same_text(e, "toml") {
        "text/plain; charset=utf-8"
    } else {
        "application/octet-stream"
    };
    mime.to_string()
}

// ---------------------------------------------------------------------------
// Sandboxes
// ---------------------------------------------------------------------------

/// A request for a sandbox.
pub struct CreateRequest {
    pub tier: String,
    pub metadata: HashMap<String, String>,
    /// Host bind mounts. A sandbox with any is made on demand instead of being
    /// claimed from the pool.
    pub bind_mounts: Vec<String>,
}

/// What is told of a sandbox.
#[derive(Debug)]
pub struct SandboxResponse {
    pub id: String,
    pub container_id: String,
    pub tier: String,
    pub state: String,
    pub bind_mounts: Vec<String>,
}

/// The mathematical counterpart of [`SandboxResponse`].
#[verifier::ext_equal]
pub struct ResponseView {
    pub id: Seq<char>,
    pub container_id: Seq<char>,
    pub tier: Seq<char>,
    pub state: Seq<char>,
    pub bind_mounts: Seq<Seq<char>>,
}

impl View for SandboxResponse {
    type V = ResponseView;

    open spec fn view(&self) -> ResponseView {
        ResponseView {
            id: self.id@,
            container_id: self.container_id@,
            tier: self.tier@,
            state: self.state@,
            bind_mounts: text::texts(self.bind_mounts@),
        }
    }
}

/// What is told of a sandbox.
pub open spec fn response_of(s: SandboxView) -> ResponseView {
    ResponseView {
        id: s.id,
        container_id: s.container_id,
        tier: s.tier,
        state: s.state.lower_text(),
        bind_mounts: s.bind_mounts,
    }
}

impl SandboxResponse {
    /// What is told of a sandbox.
    pub fn of(s: Sandbox) -> (r: SandboxResponse)
        ensures
            r@ == response_of(s@),
    {
        SandboxResponse {
            id: s.id,
            container_id: s.container_id,
            tier: s.tier,
            state: s.state.lower_name().to_string(),
            bind_mounts: s.bind_mounts,
        }
    }
}

/// Set aside what a requested sandbox needs. Its bind mounts are checked before
/// anything else.
pub fn create_sandbox(
    pool: &mut Pool,
    req: &CreateRequest,
    info: Result<HostInfo, DenError>,
) -> (r: Result<Reservation, DenError>)
    requires
        old(pool).wf(),
    ensures
        final(pool).wf(),
        match first_mount_fault(text::texts(req.bind_mounts@)) {
            Some(m) => r is Err && r->Err_0@ == ErrorView::Other(m) && final(pool)@ == old(pool)@,
            None => pool::claim_outcome(
                old(pool)@,
                final(pool)@,
                req.tier@,
                info,
                req.bind_mounts@.len() > 0,
                r,
            ),
        },
{
    match validate_bind_mounts(&req.bind_mounts) {
        Err(e) => Err(e),
        Ok(_) => pool.claim(req.tier.as_str(), info, &req.bind_mounts),
    }
}

/// Whether `ids` holds every id once.
pub open spec fn lists_ids(ids: Seq<Seq<char>>, m: Map<Seq<char>, SandboxView>) -> bool {
    &&& ids.no_duplicates()
    &&& forall|k: Seq<char>| ids.contains(k) <==> #[trigger] m.contains_key(k)
}

/// What is told of the sandboxes with the given ids.
pub open spec fn responses_for(ids: Seq<Seq<char>>, m: Map<Seq<char>, SandboxView>) -> Seq<
    ResponseView,
> {
    ids.map_values(|k: Seq<char>| response_of(m[k]))
}

/// What a list of responses tells.
pub open spec fn responses(v: Seq<SandboxResponse>) -> Seq<ResponseView> {
    v.map_values(|r: SandboxResponse| r@)
}

/// What is told of every sandbox, each once and in no particular order.
pub fn list_sandboxes(sandboxes: &Registry) -> (r: Vec<SandboxResponse>)
    ensures
        exists|ids: Seq<Seq<char>>|
            lists_ids(ids, sandboxes@) && responses(r@) == #[trigger] responses_for(
                ids,
                sandboxes@,
            ),
{
    let ids = sandboxes.ids();
    let ghost all = text::texts(ids@);
    let mut out: Vec<SandboxResponse> = Vec::new();
    let mut i: usize = 0;
    while i < ids.len()
        invariant
            i <= ids.len(),
            all == text::texts(ids@),
            lists_ids(all, sandboxes@),
            responses(out@) == responses_for(all.take(i as int), sandboxes@),
        decreases ids.len() - i,
    {
        let ghost before = responses(out@);
        assert(all[i as int] == ids@[i as int]@);
        assert(all.contains(all[i as int]));
        if let Some(s) = sandboxes.get(ids[i].as_str()) {
            let told = SandboxResponse::of(s);
            out.push(told);
            assert(responses(out@) =~= before.push(told@));
            assert(responses_for(all.take(i + 1), sandboxes@) =~= before.push(told@));
        }
        i += 1;
    }
    assert(all.take(i as int) =~= all);
    assert(responses(out@) == responses_for(all, sandboxes@));
    out
}

/// What is told of the sandbox with an id.
pub fn get_sandbox(sandboxes: &Registry, id: &str) -> (r: Result<SandboxResponse, DenError>)
    ensures
        sandboxes@.contains_key(id@) ==> r is Ok && r->Ok_0@ == response_of(sandboxes@[id@]),
        !sandboxes@.contains_key(id@) ==> r is Err && r->Err_0@ == pool::not_found(id@),
{
    match sandboxes.get(id) {
        Some(s) => Ok(SandboxResponse::of(s)),
        None => Err(missing(id)),
    }
}

/// A file in a container.
#[derive(Debug)]
pub struct FilePlace {
    pub container_id: String,
    pub path: String,
}

/// Where a file that is to be read or written lies: its path is checked first,
/// then the sandbox looked up.
pub fn file_place(pool: &Pool, id: &str, file_path: &str) -> (r: Result<FilePlace, DenError>)
    ensures
        match resolved(file_path@) {
            Err(m) => r is Err && r->Err_0@ == ErrorView::Other(m),
            Ok(parts) => if pool@.sandboxes.contains_key(id@) {
                &&& r is Ok
                &&& r->Ok_0.container_id@ == pool@.sandboxes[id@].container_id
                &&& r->Ok_0.path@ == home_path(parts)
            } else {
                r is Err && r->Err_0@ == pool::not_found(id@)
            },
        },
{
    match sanitize_file_path(file_path) {
        Err(e) => Err(e),
        Ok(path) => match pool.container_of(id) {
            Err(e) => Err(e),
            Ok(container_id) => Ok(FilePlace { container_id, path }),
        },
    }
}

// ---------------------------------------------------------------------------
// Commands
// ---------------------------------------------------------------------------

/// Seconds that a command may run at most.
pub const MAX_EXEC_TIMEOUT: u64 = 300;

/// Seconds that a command may run where the request does not say.
pub const DEFAULT_EXEC_TIMEOUT: u64 = 30;

/// Exit code of a process that was killed, as the kernel does when memory runs
/// out.
pub const KILLED_EXIT_CODE: i64 = 137;

/// A request to run a command.
#[derive(Debug)]
pub struct ExecRequest {
    pub cmd: Vec<String>,
    pub workdir: Option<String>,
    pub env: Option<Vec<String>>,
    pub timeout_secs: Option<u64>,
}

/// What is told of a command that has ended.
#[derive(Debug)]
pub struct ExecResponse {
    pub stdout: String,
    pub stderr: String,
    pub exit_code: i64,
    pub oom_killed: bool,
}

/// Let a command into a sandbox, now, which counts as activity, and tell its
/// container.
pub fn begin_exec(pool: &mut Pool, id: &str) -> (r: Result<String, DenError>)
    requires
        old(pool).wf(),
    ensures
        final(pool).wf(),
        exists|now: int|
            clock::on_clock(now) && #[trigger] begin_exec_outcome(old(pool)@, final(pool)@, id@, r, now),
{
    let now = Timestamp::now();
    let r = begin_exec_at(pool, id, now);
    assert(begin_exec_outcome(old(pool)@, pool@, id@, r, now@));
    r
}

/// Let a command into a sandbox at `now`.
pub fn begin_exec_at(pool: &mut Pool, id: &str, now: Timestamp) -> (r: Result<String, DenError>)
    requires
        old(pool).wf(),
    ensures
        final(pool).wf(),
        begin_exec_outcome(old(pool)@, final(pool)@, id@, r, now@),
{
    match pool.exec_begin(id) {
        Err(e) => Err(e),
        Ok(container_id) => {
            pool.touch_at(id, now);
            assert(pool@.sandboxes =~= old(pool)@.with_sandbox(
                pool::one_more_exec(old(pool)@.sandboxes[id@]).touched(now@),
            ).sandboxes);
            Ok(container_id)
        },
    }
}

/// What comes of letting a command into a sandbox at `now`.
pub open spec fn begin_exec_outcome(
    before: PoolView,
    after: PoolView,
    id: Seq<char>,
    r: Result<String, DenError>,
    now: int,
) -> bool {
    match pool::exec_fault(before.sandboxes, id) {
        Some(e) => r is Err && r->Err_0@ == e && after == before,
        None => {
            &&& r is Ok
            &&& r->Ok_0@ == before.sandboxes[id].container_id
            &&& after == before.with_sandbox(
                pool::one_more_exec(before.sandboxes[id]).touched(now),
            )
        },
    }
}

/// Seconds that a command may run: as many as are asked for, up to the most that
/// any command may.
pub fn exec_timeout(requested: Option<u64>) -> (r: u64)
    ensures
        r <= MAX_EXEC_TIMEOUT,
        requested matches Some(n) ==> r == if n < MAX_EXEC_TIMEOUT {
            n
        } else {
            MAX_EXEC_TIMEOUT
        },
        requested is None ==> r == DEFAULT_EXEC_TIMEOUT,
{
    let wanted: u64 = match requested {
        Some(n) => n,
        None => DEFAULT_EXEC_TIMEOUT,
    };
    if wanted < MAX_EXEC_TIMEOUT {
        wanted
    } else {
        MAX_EXEC_TIMEOUT
    }
}

/// What comes of a command that was given `seconds` seconds; `None` where it did
/// not end in time.
pub fn exec_outcome(seconds: u64, outcome: Option<Result<ExecResult, DenError>>) -> (r: Result<
    ExecResult,
    DenError,
>)
    ensures
        match outcome {
            Some(o) => r == o,
            None => r is Err && r->Err_0@ == (ErrorView::Timeout { seconds }),
        },
{
    match outcome {
        Some(o) => o,
        None => Err(DenError::Timeout { seconds }),
    }
}

/// Whether a command may have been killed for want of memory, so that Docker is
/// to be asked.
pub fn wants_oom_check(exit_code: i64) -> (r: bool)
    ensures
        r == (exit_code == KILLED_EXIT_CODE),
{
    exit_code == KILLED_EXIT_CODE
}

/// Whether a command was killed for want of memory: it was killed, and Docker
/// says so.
pub open spec fn killed_for_memory(exit_code: int, answer: Option<Result<bool, DenError>>) -> bool {
    exit_code == KILLED_EXIT_CODE && answer == Some(Ok::<bool, DenError>(true))
}

/// Whether a command was killed for want of memory, by its exit code and, where
/// Docker was asked, by the answer.
pub fn oom_verdict(exit_code: i64, answer: Option<Result<bool, DenError>>) -> (r: bool)
    ensures
        r == killed_for_memory(exit_code as int, answer),
{
    match answer {
        Some(Ok(killed)) => exit_code == KILLED_EXIT_CODE && killed,
        _ => false,
    }
}

/// What is told of a command that has ended.
pub fn exec_response(result: ExecResult, answer: Option<Result<bool, DenError>>) -> (r:
    ExecResponse)
    ensures
        r.stdout@ == result.stdout@,
        r.stderr@ == result.stderr@,
        r.exit_code == result.exit_code,
        r.oom_killed == killed_for_memory(result.exit_code as int, answer),
{
    let oom_killed = oom_verdict(result.exit_code, answer);
    ExecResponse {
        stdout: result.stdout,
        stderr: result.stderr,
        exit_code: result.exit_code,
        oom_killed,
    }
}

/// The state of health, by what came of asking the Docker daemon for a sign of
/// life; `None` where it gave none in time.
pub fn health(ping: Option<Result<(), DenError>>) -> (r: Result<&'static str, DenError>)
    ensures
        match ping {
            Some(Ok(_)) => r is Ok && r->Ok_0@ == "ok"@,
            Some(Err(e)) => r is Err && r->Err_0@ == e@,
            None => r is Err && r->Err_0@ == ErrorView::Other("docker ping timeout"@),
        },
{
    match ping {
        Some(Ok(_)) => Ok("ok"),
        Some(Err(e)) => Err(e),
        None => Err(DenError::Other("docker ping timeout".to_string())),
    }
}

// ---------------------------------------------------------------------------
// What requests mean
// ---------------------------------------------------------------------------

proof fn lemma_parts_of(host: Seq<char>, rest: Seq<char>)
    requires
        !host.contains(':'),
    ensures
        ({
            let mount = host + seq![':'] + rest;
            &&& text::first_index(mount, ':') == host.len()
            &&& mount.take(host.len() as int) == host
            &&& mount.skip(host.len() as int + 1) == rest
        }),
{
    let mount = host + seq![':'] + rest;
    assert forall|k: int| 0 <= k < host.len() implies mount[k] != ':' by {
        assert(mount[k] == host[k]);
    }
    text::lemma_first_index_is(mount, ':', host.len() as int);
    assert(mount.take(host.len() as int) =~= host);
    assert(mount.skip(host.len() as int + 1) =~= rest);
}

/// A bind mount, with or without a mode, is accepted exactly when both its paths
/// start at the root, the container's is not the sandbox home, the host's lies under
/// none of six prefixes, and the mode is `ro` or `rw`. Without a colon it is none.
pub proof fn which_bind_mounts_are_accepted(
    host: Seq<char>,
    container: Seq<char>,
    mode: Seq<char>,
)
    requires
        !host.contains(':'),
        !container.contains(':'),
    ensures
        mount_fault(host) is Some,
        ({
            let sound = {
                &&& host.len() > 0 && host[0] == '/'
                &&& container.len() > 0 && container[0] == '/'
                &&& container != "/home/sandbox"@
                &&& !"/var/run/docker"@.is_prefix_of(host)
                &&& !"/proc"@.is_prefix_of(host)
                &&& !"/sys"@.is_prefix_of(host)
                &&& !"/dev"@.is_prefix_of(host)
                &&& !"/etc"@.is_prefix_of(host)
                &&& !"/root"@.is_prefix_of(host)
            };
            &&& mount_fault(host + seq![':'] + container) is None <==> sound
            &&& mount_fault(host + seq![':'] + container + seq![':'] + mode) is None <==> sound && (
            mode == "ro"@ || mode == "rw"@)
        }),
{
    assert forall|k: int| 0 <= k < host.len() implies host[k] != ':' by {
        if host[k] == ':' {
            assert(host.contains(':'));
        }
    }
    assert forall|k: int| 0 <= k < container.len() implies container[k] != ':' by {
        if container[k] == ':' {
            assert(container.contains(':'));
        }
    }
    text::lemma_first_index_is(host, ':', host.len() as int);
    text::lemma_first_index_is(container, ':', container.len() as int);
    lemma_parts_of(host, container);
    lemma_parts_of(container, mode);
    lemma_parts_of(host, container + seq![':'] + mode);
    assert(host + seq![':'] + container + seq![':'] + mode =~= host + seq![':'] + (container
        + seq![':'] + mode));
    assert(container.take(container.len() as int) =~= container);
}

/// A list of bind mounts is accepted exactly when each is, and else the fault of the
/// first faulty one is told.
pub proof fn the_first_faulty_mount_is_told(mounts: Seq<Seq<char>>)
    ensures
        first_mount_fault(mounts) is None <==> forall|i: int|
            0 <= i < mounts.len() ==> mount_fault(#[trigger] mounts[i]) is None,
        first_mount_fault(mounts) is Some ==> exists|i: int|
            0 <= i < mounts.len() && mount_fault(#[trigger] mounts[i]) == first_mount_fault(mounts)
                && forall|k: int| 0 <= k < i ==> mount_fault(#[trigger] mounts[k]) is None,
    decreases mounts.len(),
{
    if mounts.len() > 0 {
        let rest = mounts.drop_first();
        the_first_faulty_mount_is_told(rest);
        assert forall|i: int| 0 <= i < rest.len() implies #[trigger] rest[i] == mounts[i + 1] by {}
        if mount_fault(mounts[0]) is Some {
            assert(mount_fault(mounts[0]) == first_mount_fault(mounts));
        } else if first_mount_fault(mounts) is None {
            assert forall|i: int| 0 <= i < mounts.len() implies mount_fault(
                #[trigger] mounts[i],
            ) is None by {
                if i > 0 {
                    assert(mount_fault(rest[i - 1]) is None);
                }
            }
        } else {
            let i = choose|i: int|
                0 <= i < rest.len() && mount_fault(#[trigger] rest[i]) == first_mount_fault(rest)
                    && forall|k: int| 0 <= k < i ==> mount_fault(#[trigger] rest[k]) is None;
            assert forall|k: int| 0 <= k < i + 1 implies mount_fault(
                #[trigger] mounts[k],
            ) is None by {
                if k > 0 {
                    assert(mount_fault(rest[k - 1]) is None);
                }
            }
            assert(mount_fault(mounts[i + 1]) == first_mount_fault(mounts));
        }
    }
}

proof fn lemma_walk_in_two(at: Seq<Seq<char>>, a: Seq<Seq<char>>, b: Seq<Seq<char>>)
    ensures
        walk(at, a + b) == match walk(at, a) {
            Some(there) => walk(there, b),
            None => None,
        },
    decreases a.len(),
{
    if a.len() == 0 {
        assert(a + b =~= b);
    } else {
        let rest = a.drop_first();
        assert((a + b).drop_first() =~= rest + b);
        assert((a + b)[0] == a[0]);
        let p = a[0];
        if p.len() == 0 || is_dot(p) {
            lemma_walk_in_two(at, rest, b);
        } else if is_dot_dot(p) {
            if at.len() > 0 {
                lemma_walk_in_two(at.drop_last(), rest, b);
            }
        } else {
            lemma_walk_in_two(at.push(p), rest, b);
        }
    }
}

/// Along a path, empty and `.` components change nothing, and a plain component is
/// undone by `..` behind it; a `..` with nothing to undo leads above the home and
/// nowhere from there.
pub proof fn dots_along_a_path(
    at: Seq<Seq<char>>,
    a: Seq<Seq<char>>,
    b: Seq<Seq<char>>,
    name: Seq<char>,
)
    requires
        plain_part(name),
    ensures
        walk(at, a + seq![seq!['.']] + b) == walk(at, a + b),
        walk(at, a + seq![Seq::<char>::empty()] + b) == walk(at, a + b),
        walk(at, a + seq![name] + seq![seq!['.', '.']] + b) == walk(at, a + b),
        walk(at, a) is None ==> walk(at, a + b) is None,
        walk(at, a) == Some(Seq::<Seq<char>>::empty()) ==> walk(
            at,
            a + seq![seq!['.', '.']] + b,
        ) is None,
        walk(at, a) is Some ==> walk(at, a + seq![name]) == Some(walk(at, a)->0.push(name)),
        walk(at, Seq::empty()) == Some(at),
{
    let dot = seq![seq!['.']];
    let none = seq![Seq::<char>::empty()];
    let up = seq![seq!['.', '.']];
    let one = seq![name];
    lemma_walk_in_two(at, a, b);
    lemma_walk_in_two(at, a, dot + b);
    lemma_walk_in_two(at, a, none + b);
    lemma_walk_in_two(at, a, one + up + b);
    lemma_walk_in_two(at, a, up + b);
    lemma_walk_in_two(at, a, one);
    assert(a + dot + b =~= a + (dot + b));
    assert(a + none + b =~= a + (none + b));
    assert(a + one + up + b =~= a + (one + up + b));
    assert(a + up + b =~= a + (up + b));
    assert((dot + b).drop_first() =~= b);
    assert((none + b).drop_first() =~= b);
    assert((one + up + b).drop_first() =~= up + b);
    assert((up + b).drop_first() =~= b);
    assert(one.drop_first() =~= Seq::empty());
    assert(is_dot(dot[0]));
    assert(is_dot_dot(up[0]));
    if let Some(there) = walk(at, a) {
        assert(there.push(name).drop_last() =~= there);
        assert((one + up + b)[0] == name);
        assert((up + b)[0] == up[0]);
        assert(walk(there, one + up + b) == walk(there.push(name), up + b));
        assert(walk(there.push(name), up + b) == walk(there, b));
        reveal_with_fuel(walk, 2);
    }
}

/// A requested path names what its components lead to from the home, slashes before
/// it aside; one without components names nothing.
pub proof fn a_path_is_walked_from_the_home(raw: Seq<char>, parts: Seq<Seq<char>>, name: Seq<char>)
    ensures
        resolved(seq!['/'] + raw) == resolved(raw),
        raw.len() == 0 ==> resolved(raw) is Err,
        raw.len() > 0 && raw[0] != '/' ==> (resolved(raw) is Ok <==> walk(
            Seq::empty(),
            text::split(raw, '/'),
        ) is Some),
        raw.len() > 0 && raw[0] != '/' && resolved(raw) is Ok ==> Some(resolved(raw)->Ok_0) == walk(
            Seq::empty(),
            text::split(raw, '/'),
        ),
        home_path(Seq::empty()) == "/home/sandbox"@,
        home_path(parts.push(name)) == home_path(parts) + seq!['/'] + name,
        plain_part(name) <==> name.len() > 0 && !name.contains('/') && name != seq!['.'] && name
            != seq!['.', '.'],
{
    assert((seq!['/'] + raw).drop_first() =~= raw);
    assert(parts.push(name).drop_last() =~= parts);
    if name.len() == 1 && name[0] == '.' {
        assert(name =~= seq!['.']);
    }
    if name.len() == 2 && name[0] == '.' && name[1] == '.' {
        assert(name =~= seq!['.', '.']);
    }
}

/// The content type goes by the extension alone: these have a type of their own, and
/// any other file is a stream of bytes.
pub proof fn content_types(ext: Seq<char>)
    ensures
        mime_of(ext) == "text/plain; charset=utf-8"@ <==> {
            ||| ext == "txt"@ || ext == "log"@ || ext == "md"@ || ext == "csv"@
            ||| ext == "py"@ || ext == "rs"@ || ext == "ts"@ || ext == "tsx"@ || ext == "jsx"@
            ||| ext == "sh"@ || ext == "yaml"@ || ext == "yml"@ || ext == "toml"@
        },
        ext == "json"@ ==> mime_of(ext) == "application/json"@,
        ext == "html"@ || ext == "htm"@ ==> mime_of(ext) == "text/html"@,
        ext == "js"@ || ext == "mjs"@ ==> mime_of(ext) == "text/javascript"@,
        ext == "css"@ ==> mime_of(ext) == "text/css"@,
        ext == "xml"@ ==> mime_of(ext) == "application/xml"@,
        ext == "pdf"@ ==> mime_of(ext) == "application/pdf"@,
        ext == "png"@ ==> mime_of(ext) == "image/png"@,
        ext == "jpg"@ || ext == "jpeg"@ ==> mime_of(ext) == "image/jpeg"@,
        ext == "gif"@ ==> mime_of(ext) == "image/gif"@,
        ext == "svg"@ ==> mime_of(ext) == "image/svg+xml"@,
        mime_of(ext) == "application/octet-stream"@ || mime_of(ext)
            == "text/plain; charset=utf-8"@ || ext == "json"@ || ext == "html"@ || ext == "htm"@
            || ext == "js"@ || ext == "mjs"@ || ext == "css"@ || ext == "xml"@ || ext == "pdf"@
            || ext == "png"@ || ext == "jpg"@ || ext == "jpeg"@ || ext == "gif"@ || ext == "svg"@,
{
    lemma_extensions_differ();
}

/// The texts that stand for types and extensions are told apart by their lengths or
/// a character.
proof fn lemma_extensions_differ()
    ensures
        "json"@ != "html"@,
        "text/plain; charset=utf-8"@ != "application/json"@,
        "text/plain; charset=utf-8"@ != "text/html"@,
        "text/plain; charset=utf-8"@ != "text/javascript"@,
        "text/plain; charset=utf-8"@ != "text/css"@,
        "text/plain; charset=utf-8"@ != "application/xml"@,
        "text/plain; charset=utf-8"@ != "application/pdf"@,
        "text/plain; charset=utf-8"@ != "image/png"@,
        "text/plain; charset=utf-8"@ != "image/jpeg"@,
        "text/plain; charset=utf-8"@ != "image/gif"@,
        "text/plain; charset=utf-8"@ != "image/svg+xml"@,
        "text/plain; charset=utf-8"@ != "application/octet-stream"@,
        pairwise_apart(),
{
    reveal_strlit("text/plain; charset=utf-8");
    reveal_strlit("application/json");
    reveal_strlit("text/html");
    reveal_strlit("text/javascript");
    reveal_strlit("text/css");
    reveal_strlit("application/xml");
    reveal_strlit("application/pdf");
    reveal_strlit("image/png");
    reveal_strlit("image/jpeg");
    reveal_strlit("image/gif");
    reveal_strlit("image/svg+xml");
    reveal_strlit("application/octet-stream");
    reveal_strlit("txt");
    reveal_strlit("log");
    reveal_strlit("md");
    reveal_strlit("csv");
    reveal_strlit("json");
    reveal_strlit("html");
    reveal_strlit("htm");
    reveal_strlit("js");
    reveal_strlit("mjs");
    reveal_strlit("css");
    reveal_strlit("xml");
    reveal_strlit("pdf");
    reveal_strlit("png");
    reveal_strlit("jpg");
    reveal_strlit("jpeg");
    reveal_strlit("gif");
    reveal_strlit("svg");
    reveal_strlit("py");
    reveal_strlit("rs");
    reveal_strlit("ts");
    reveal_strlit("tsx");
    reveal_strlit("jsx");
    reveal_strlit("sh");
    reveal_strlit("yaml");
    reveal_strlit("yml");
    reveal_strlit("toml");
    assert("text/plain; charset=utf-8"@.len() == 25);
    assert("application/json"@.len() == 16);
    assert("text/html"@.len() == 9);
    assert("text/javascript"@.len() == 15);
    assert("text/css"@.len() == 8);
    assert("application/xml"@.len() == 15);
    assert("application/pdf"@.len() == 15);
    assert("image/png"@.len() == 9);
    assert("image/jpeg"@.len() == 10);
    assert("image/gif"@.len() == 9);
    assert("image/svg+xml"@.len() == 13);
    assert("application/octet-stream"@.len() == 24);
    assert("json"@[0] == 'j' && "html"@[0] == 'h' && "jpeg"@[1] == 'p' && "json"@[1] == 's');
    assert("yaml"@[0] == 'y' && "toml"@[0] == 't');
    assert("js"@[0] == 'j' && "md"@[0] == 'm' && "py"@[0] == 'p' && "rs"@[0] == 'r');
    assert("ts"@[0] == 't' && "sh"@[0] == 's');
    assert("txt"@[0] == 't' && "log"@[0] == 'l' && "csv"@[0] == 'c' && "htm"@[0] == 'h');
    assert("mjs"@[0] == 'm' && "css"@[0] == 'c' && "xml"@[0] == 'x' && "pdf"@[0] == 'p');
    assert("png"@[0] == 'p' && "jpg"@[0] == 'j' && "gif"@[0] == 'g' && "svg"@[0] == 's');
    assert("tsx"@[0] == 't' && "jsx"@[0] == 'j' && "yml"@[0] == 'y');
    assert("csv"@[2] == 'v' && "css"@[2] == 's' && "pdf"@[1] == 'd' && "png"@[1] == 'n');
    assert("jpg"@[1] == 'p' && "jsx"@[1] == 's' && "txt"@[1] == 'x' && "tsx"@[1] == 's');
}

/// Whether the extensions with a type of their own are no text extensions, and
/// differ.
spec fn pairwise_apart() -> bool {
    &&& "json"@ != "html"@ && "json"@ != "jpeg"@ && "json"@ != "yaml"@ && "json"@ != "toml"@
    &&& "html"@ != "jpeg"@ && "html"@ != "yaml"@ && "html"@ != "toml"@
    &&& "jpeg"@ != "yaml"@ && "jpeg"@ != "toml"@
    &&& "js"@ != "md"@ && "js"@ != "py"@ && "js"@ != "rs"@ && "js"@ != "ts"@ && "js"@ != "sh"@
    &&& apart_from_text("htm"@) && apart_from_text("mjs"@) && apart_from_text("css"@)
    &&& apart_from_text("xml"@) && apart_from_text("pdf"@) && apart_from_text("png"@)
    &&& apart_from_text("jpg"@) && apart_from_text("gif"@) && apart_from_text("svg"@)
    &&& "htm"@ != "mjs"@ && "htm"@ != "css"@ && "htm"@ != "xml"@ && "htm"@ != "pdf"@
    &&& "htm"@ != "png"@ && "htm"@ != "jpg"@ && "htm"@ != "gif"@ && "htm"@ != "svg"@
    &&& "mjs"@ != "css"@ && "mjs"@ != "xml"@ && "mjs"@ != "pdf"@ && "mjs"@ != "png"@
    &&& "mjs"@ != "jpg"@ && "mjs"@ != "gif"@ && "mjs"@ != "svg"@
    &&& "css"@ != "xml"@ && "css"@ != "pdf"@ && "css"@ != "png"@ && "css"@ != "jpg"@
    &&& "css"@ != "gif"@ && "css"@ != "svg"@
    &&& "xml"@ != "pdf"@ && "xml"@ != "png"@ && "xml"@ != "jpg"@ && "xml"@ != "gif"@
    &&& "xml"@ != "svg"@
    &&& "pdf"@ != "png"@ && "pdf"@ != "jpg"@ && "pdf"@ != "gif"@ && "pdf"@ != "svg"@
    &&& "png"@ != "jpg"@ && "png"@ != "gif"@ && "png"@ != "svg"@
    &&& "jpg"@ != "gif"@ && "jpg"@ != "svg"@ && "gif"@ != "svg"@
    &&& "json"@.len() == 4 && "html"@.len() == 4 && "jpeg"@.len() == 4 && "js"@.len() == 2
    &&& "htm"@.len() == 3 && "mjs"@.len() == 3 && "css"@.len() == 3 && "xml"@.len() == 3
    &&& "pdf"@.len() == 3 && "png"@.len() == 3 && "jpg"@.len() == 3 && "gif"@.len() == 3
    &&& "svg"@.len() == 3 && "md"@.len() == 2 && "yaml"@.len() == 4 && "toml"@.len() == 4
    &&& "py"@.len() == 2 && "rs"@.len() == 2 && "ts"@.len() == 2 && "sh"@.len() == 2
    &&& "txt"@.len() == 3 && "log"@.len() == 3 && "csv"@.len() == 3 && "tsx"@.len() == 3
    &&& "jsx"@.len() == 3 && "yml"@.len() == 3
}

spec fn apart_from_text(ext: Seq<char>) -> bool {
    ext != "txt"@ && ext != "log"@ && ext != "csv"@ && ext != "tsx"@ && ext != "jsx"@ && ext
        != "yml"@
}

/// What is told of a sandbox are its id, container, tier and bind mounts as they
/// are, and its state in lower case; of a list of sandboxes, each in its place.
pub proof fn what_is_told_of_sandboxes(
    s: SandboxView,
    ids: Seq<Seq<char>>,
    m: Map<Seq<char>, SandboxView>,
    r: SandboxResponse,
)
    ensures
        response_of(s).id == s.id,
        response_of(s).container_id == s.container_id,
        response_of(s).tier == s.tier,
        response_of(s).bind_mounts == s.bind_mounts,
        response_of(s).state == s.state.lower_text(),
        responses_for(ids, m).len() == ids.len(),
        forall|i: int|
            0 <= i < ids.len() ==> #[trigger] responses_for(ids, m)[i] == response_of(m[ids[i]]),
        lists_ids(ids, m) ==> ids.no_duplicates() && ids.to_set() =~= m.dom(),
        r@.id == r.id@,
        r@.container_id == r.container_id@,
        r@.tier == r.tier@,
        r@.state == r.state@,
        r@.bind_mounts == r.bind_mounts@.map_values(|b: String| b@),
{
    if lists_ids(ids, m) {
        assert forall|k: Seq<char>| ids.to_set().contains(k) <==> m.dom().contains(k) by {
            assert(ids.contains(k) <==> m.contains_key(k));
        }
    }
}

/// A command that is let in adds one to the commands of its sandbox and counts as
/// activity; its container is told. Nothing else changes.
pub proof fn a_command_that_is_let_in(
    before: PoolView,
    after: PoolView,
    id: Seq<char>,
    r: Result<String, DenError>,
    now: int,
)
    requires
        before.valid(),
        begin_exec_outcome(before, after, id, r, now),
    ensures
        r is Ok <==> before.sandboxes.contains_key(id) && before.sandboxes[id].state is Running
            && before.sandboxes[id].active_execs < before.sandboxes[id].max_concurrent_execs,
        r is Err ==> after == before,
        r is Ok ==> {
            let s = before.sandboxes[id];
            let t = after.sandboxes[id];
            &&& r->Ok_0@ == s.container_id
            &&& after.sandboxes.contains_key(id)
            &&& t.active_execs == s.active_execs + 1
            &&& t.last_activity == now
            &&& s == (SandboxView {
                active_execs: s.active_execs,
                last_activity: s.last_activity,
                ..t
            })
            &&& after.sandboxes.remove(id) == before.sandboxes.remove(id)
            &&& after.shelves == before.shelves && after.config == before.config && after.host
                == before.host
        },
{
    if r is Ok {
        assert(after.sandboxes.remove(id) =~= before.sandboxes.remove(id));
    }
}

/// Memory is blamed exactly where the exit code is 137 and Docker says so.
pub proof fn when_memory_is_blamed(exit_code: int, answer: Option<Result<bool, DenError>>)
    ensures
        killed_for_memory(exit_code, answer) <==> exit_code == 137 && answer is Some
            && answer->0 is Ok && answer->0->Ok_0,
{
}

/// A command that asks for no more seconds than five minutes gets just these, one
/// that asks for more gets five minutes, and one that does not ask gets half a minute.
/// More asked for is never less got.
pub proof fn how_long_commands_may_run(a: u64, b: u64, ra: u64, rb: u64, r: u64)
    requires
        call_ensures(exec_timeout, (Some(a),), ra),
        call_ensures(exec_timeout, (Some(b),), rb),
        call_ensures(exec_timeout, (None::<u64>,), r),
    ensures
        a <= 300 ==> ra == a,
        a >= 300 ==> ra == 300,
        a <= b ==> ra <= rb,
        r == 30,
{
}

/// What a command that ended in time came to is told as it is; one that did not end in
/// its seconds is told to have timed out after these.
pub proof fn what_comes_of_a_command(
    seconds: u64,
    outcome: Option<Result<ExecResult, DenError>>,
    r: Result<ExecResult, DenError>,
)
    requires
        call_ensures(exec_outcome, (seconds, outcome), r),
    ensures
        outcome is Some ==> r == outcome->0,
        outcome is None ==> r is Err && r->Err_0@ == (ErrorView::Timeout { seconds }),
{
}

/// What a command has written and its exit code are told as they are, and memory is
/// blamed exactly where the exit code is 137 and Docker says so.
pub proof fn commands_are_told_as_they_ended(
    result: ExecResult,
    answer: Option<Result<bool, DenError>>,
    r: ExecResponse,
    wanted: bool,
)
    requires
        call_ensures(exec_response, (result, answer), r),
        call_ensures(wants_oom_check, (result.exit_code,), wanted),
    ensures
        r.stdout@ == result.stdout@,
        r.stderr@ == result.stderr@,
        r.exit_code == result.exit_code,
        r.oom_killed <==> result.exit_code == 137 && answer is Some && answer->0 is Ok
            && answer->0->Ok_0,
        wanted <==> result.exit_code == 137,
{
}

/// The service is well exactly where the daemon answered in time without an error, and
/// an error of the daemon is passed on.
pub proof fn health_is_that_of_the_daemon(
    ping: Option<Result<(), DenError>>,
    r: Result<&'static str, DenError>,
)
    requires
        call_ensures(health, (ping,), r),
    ensures
        r is Ok <==> ping is Some && ping->0 is Ok,
        r is Ok ==> r->Ok_0@ == "ok"@,
        ping is Some && ping->0 is Err ==> r->Err_0@ == ping->0->Err_0@,
        ping is None ==> r->Err_0@ == ErrorView::Other("docker ping timeout"@),
{
}

/// What is told of a sandbox is what there is under its id.
pub proof fn sandboxes_are_told_as_they_are(
    sandboxes: &Registry,
    id: &str,
    r: Result<SandboxResponse, DenError>,
)
    requires
        call_ensures(get_sandbox, (sandboxes, id), r),
    ensures
        r is Ok <==> sandboxes@.contains_key(id@),
        r is Err ==> r->Err_0@ == (ErrorView::SandboxNotFound { id: id@ }),
        r is Ok ==> {
            let s = sandboxes@[id@];
            &&& r->Ok_0.id@ == s.id
            &&& r->Ok_0.container_id@ == s.container_id
            &&& r->Ok_0.tier@ == s.tier
            &&& r->Ok_0.state@ == s.state.lower_text()
            &&& r->Ok_0.bind_mounts@.map_values(|b: String| b@) == s.bind_mounts
        },
{
}

/// A list of the sandboxes tells of each that there is, with what is told of it alone,
/// and of as many as there are.
pub proof fn every_sandbox_is_listed(sandboxes: &Registry, r: Vec<SandboxResponse>, k: Seq<char>)
    requires
        registry::consistent(sandboxes@),
        call_ensures(list_sandboxes, (sandboxes,), r),
    ensures
        sandboxes@.contains_key(k) <==> exists|i: int|
            0 <= i < r@.len() && (#[trigger] r@[i]).id@ == k,
        forall|i: int|
            0 <= i < r@.len() && (#[trigger] r@[i]).id@ == k ==> r@[i]@ == response_of(
                sandboxes@[k],
            ),
        forall|i: int, j: int|
            0 <= i < j < r@.len() ==> (#[trigger] r@[i]).id@ != (#[trigger] r@[j]).id@,
{
    let m = sandboxes@;
    let ids = choose|ids: Seq<Seq<char>>|
        lists_ids(ids, m) && responses(r@) == #[trigger] responses_for(ids, m);
    let told = responses_for(ids, m);
    assert(told.len() == r@.len());
    assert forall|i: int| 0 <= i < r@.len() implies (#[trigger] r@[i]).id@ == ids[i]
        && m.contains_key(ids[i]) && r@[i]@ == response_of(m[ids[i]]) by {
        assert(responses(r@)[i] == r@[i]@);
        assert(told[i] == response_of(m[ids[i]]));
        assert(ids.contains(ids[i]));
        assert(m.contains_key(ids[i]));
        assert(m[ids[i]].id == ids[i]);
    }
    if m.contains_key(k) {
        assert(ids.contains(k));
        let i = choose|i: int| 0 <= i < ids.len() && ids[i] == k;
        assert(r@[i].id@ == k);
    }
}

/// A file is looked for in the container of its sandbox, below the sandbox home and
/// nowhere else.
pub proof fn files_are_looked_for_below_the_home(
    pool: &Pool,
    id: &str,
    file_path: &str,
    r: Result<FilePlace, DenError>,
)
    requires
        call_ensures(file_place, (pool, id, file_path), r),
    ensures
        r is Ok <==> resolved(file_path@) is Ok && pool@.sandboxes.contains_key(id@),
        r is Ok ==> {
            &&& r->Ok_0.container_id@ == pool@.sandboxes[id@].container_id
            &&& r->Ok_0.path@ == home_path(resolved(file_path@)->Ok_0)
            &&& "/home/sandbox"@.is_prefix_of(r->Ok_0.path@)
        },
        resolved(file_path@) is Ok && r is Err ==> r->Err_0@ == (ErrorView::SandboxNotFound {
            id: id@,
        }),
{
    if resolved(file_path@) is Ok {
        lemma_below_home(resolved(file_path@)->Ok_0);
    }
}

proof fn lemma_below_home(parts: Seq<Seq<char>>)
    ensures
        "/home/sandbox"@.is_prefix_of(home_path(parts)),
    decreases parts.len(),
{
    let home = "/home/sandbox"@;
    if parts.len() > 0 {
        lemma_below_home(parts.drop_last());
        let h = home_path(parts.drop_last());
        assert(home_path(parts).take(home.len() as int) =~= h.take(home.len() as int));
        assert(home =~= h.take(home.len() as int));
        assert(home_path(parts).subrange(0, home.len() as int) =~= home);
    } else {
        assert(home.subrange(0, home.len() as int) =~= home);
    }
}

/// The content type of a file goes by what follows the last dot of its path.
pub proof fn content_types_go_by_the_extension(
    path: &str,
    stem: Seq<char>,
    ext: Seq<char>,
    r: String,
)
    requires
        !ext.contains('.'),
        path@ == stem + seq!['.'] + ext,
        call_ensures(guess_mime, (path,), r),
    ensures
        r@ == mime_of(ext),
        ext == "json"@ ==> r@ == "application/json"@,
        ext == "html"@ ==> r@ == "text/html"@,
        ext == "py"@ ==> r@ == "text/plain; charset=utf-8"@,
        ext == "png"@ ==> r@ == "image/png"@,
{
    text::the_last_piece_follows_the_last_separator(stem, '.', ext);
    content_types(ext);
}

/// A sandbox with a faulty bind mount is refused with the fault of the first, before
/// anything is set aside.
pub proof fn faulty_mounts_are_refused_first(
    pool: &mut Pool,
    req: &CreateRequest,
    info: Result<HostInfo, DenError>,
    r: Result<Reservation, DenError>,
    i: int,
)
    requires
        call_ensures(create_sandbox, (pool, req, info), r),
        0 <= i < req.bind_mounts@.len(),
        mount_fault(req.bind_mounts@[i]@) is Some,
        forall|k: int| 0 <= k < i ==> mount_fault((#[trigger] req.bind_mounts@[k])@) is None,
    ensures
        r is Err,
        r->Err_0@ == ErrorView::Other(mount_fault(req.bind_mounts@[i]@)->0),
        final(pool)@ == old(pool)@,
{
    let all = text::texts(req.bind_mounts@);
    the_first_faulty_mount_is_told(all);
    assert(all[i] == req.bind_mounts@[i]@);
    if first_mount_fault(all) is None {
        assert(mount_fault(all[i]) is None);
    } else {
        let j = choose|j: int|
            0 <= j < all.len() && mount_fault(#[trigger] all[j]) == first_mount_fault(all) && forall|
                k: int,
            | 0 <= k < j ==> mount_fault(#[trigger] all[k]) is None;
        if j < i {
            assert(mount_fault(req.bind_mounts@[j]@) is None);
            assert(all[j] == req.bind_mounts@[j]@);
        }
        if i < j {
            assert(mount_fault(all[i]) is None);
        }
    }
}

/// A sandbox without bind mounts is claimed from the pool, one with bind mounts that
/// have no fault gets a container of its own.
pub proof fn sound_requests_are_claimed(
    pool: &mut Pool,
    req: &CreateRequest,
    info: Result<HostInfo, DenError>,
    r: Result<Reservation, DenError>,
)
    requires
        call_ensures(create_sandbox, (pool, req, info), r),
        forall|k: int|
            0 <= k < req.bind_mounts@.len() ==> mount_fault(
                (#[trigger] req.bind_mounts@[k])@,
            ) is None,
    ensures
        pool::claim_outcome(
            old(pool)@,
            final(pool)@,
            req.tier@,
            info,
            req.bind_mounts@.len() > 0,
            r,
        ),
        r is Ok ==> (r->Ok_0 is Dedicated <==> req.bind_mounts@.len() > 0),
{
    let all = text::texts(req.bind_mounts@);
    the_first_faulty_mount_is_told(all);
    assert forall|k: int| 0 <= k < all.len() implies mount_fault(#[trigger] all[k]) is None by {
        assert(all[k] == req.bind_mounts@[k]@);
    }
}

/// A command that is let in at `now` is counted, counts as activity then, and is told
/// its container.
pub proof fn commands_let_in_count_as_activity(
    pool: &mut Pool,
    id: &str,
    now: Timestamp,
    r: Result<String, DenError>,
)
    requires
        old(pool)@.valid(),
        call_ensures(begin_exec_at, (pool, id, now), r),
    ensures
        r is Ok <==> old(pool)@.sandboxes.contains_key(id@) && old(
            pool,
        )@.sandboxes[id@].state is Running && old(pool)@.sandboxes[id@].active_execs < old(
            pool,
        )@.sandboxes[id@].max_concurrent_execs,
        r is Err ==> final(pool)@ == old(pool)@,
        r is Ok ==> {
            let s = old(pool)@.sandboxes[id@];
            let t = final(pool)@.sandboxes[id@];
            &&& r->Ok_0@ == s.container_id
            &&& t.active_execs == s.active_execs + 1
            &&& t.last_activity == now@
            &&& s == (SandboxView {
                active_execs: s.active_execs,
                last_activity: s.last_activity,
                ..t
            })
            &&& final(pool)@.sandboxes.remove(id@) == old(pool)@.sandboxes.remove(id@)
            &&& final(pool)@.shelves == old(pool)@.shelves
        },
{
    a_command_that_is_let_in(old(pool)@, final(pool)@, id@, r, now@);
}

/// Every fault of a bind mount is told with the mount itself: first that it has no
/// colon, then that a path does not start at the root, then that it targets the sandbox
/// home, then which prefix its host path is blocked for, then that its mode is neither
/// of the two.
pub proof fn faults_of_bind_mounts(host: Seq<char>, container: Seq<char>, mode: Seq<char>)
    requires
        !host.contains(':'),
        !container.contains(':'),
    ensures
        mount_fault(host) == Some(
            "invalid bind mount format (expected host:container[:mode]): "@ + host,
        ),
        ({
            let mount = host + seq![':'] + container + seq![':'] + mode;
            let rooted = host.len() > 0 && host[0] == '/' && container.len() > 0 && container[0]
                == '/';
            let home = container == "/home/sandbox"@;
            &&& !rooted ==> mount_fault(mount) == Some(
                "bind mount paths must be absolute: "@ + mount,
            )
            &&& rooted && home ==> mount_fault(mount) == Some(
                "bind mount cannot target /home/sandbox (reserved for volume): "@ + mount,
            )
            &&& rooted && !home && "/etc"@.is_prefix_of(host) && blocked_prefix(host) == Some(
                "/etc"@,
            ) ==> mount_fault(mount) == Some("bind mount host path blocked (/etc): "@ + mount)
            &&& rooted && !home && blocked_prefix(host) is Some ==> mount_fault(mount) == Some(
                "bind mount host path blocked ("@ + blocked_prefix(host)->0 + "): "@ + mount,
            )
            &&& rooted && !home && blocked_prefix(host) is None && mode != "ro"@ && mode != "rw"@
                ==> mount_fault(mount) == Some("bind mount mode must be 'ro' or 'rw': "@ + mount)
        }),
        blocked_prefix(host) is Some ==> blocked_prefix(host)->0.is_prefix_of(host),
{
    assert forall|k: int| 0 <= k < host.len() implies host[k] != ':' by {
        if host[k] == ':' {
            assert(host.contains(':'));
        }
    }
    assert forall|k: int| 0 <= k < container.len() implies container[k] != ':' by {
        if container[k] == ':' {
            assert(container.contains(':'));
        }
    }
    text::lemma_first_index_is(host, ':', host.len() as int);
    lemma_parts_of(container, mode);
    lemma_parts_of(host, container + seq![':'] + mode);
    assert(host + seq![':'] + container + seq![':'] + mode =~= host + seq![':'] + (container
        + seq![':'] + mode));
    reveal_strlit("bind mount host path blocked (/etc): ");
    reveal_strlit("bind mount host path blocked (");
    reveal_strlit("/etc");
    reveal_strlit("): ");
    assert("bind mount host path blocked (/etc): "@ =~= "bind mount host path blocked ("@ + "/etc"@
        + "): "@);
}

/// A path that names nothing is told to be empty, one that leads above the home to be
/// blocked.
pub proof fn faults_of_paths(raw: Seq<char>)
    ensures
        raw.len() == 0 ==> resolved(raw) == Err::<Seq<Seq<char>>, Seq<char>>("empty file path"@),
        raw.len() > 0 && raw[0] != '/' && walk(Seq::empty(), text::split(raw, '/')) is None
            ==> resolved(raw) == Err::<Seq<Seq<char>>, Seq<char>>("path traversal blocked"@),
{
}

/// A bind mount is let through exactly where it has no fault, and else refused with it;
/// a list of them where none has one.
pub proof fn only_sound_mounts_are_let_through(
    mount: &str,
    r: Result<(), DenError>,
    mounts: &Vec<String>,
    all: Result<(), DenError>,
)
    requires
        call_ensures(validate_bind_mount, (mount,), r),
        call_ensures(validate_bind_mounts, (mounts,), all),
    ensures
        r is Ok <==> mount_fault(mount@) is None,
        r is Err ==> r->Err_0@ == ErrorView::Other(mount_fault(mount@)->0),
        all is Ok <==> forall|i: int|
            0 <= i < mounts@.len() ==> mount_fault((#[trigger] mounts@[i])@) is None,
{
    let texts = text::texts(mounts@);
    the_first_faulty_mount_is_told(texts);
    assert forall|i: int| 0 <= i < mounts@.len() implies texts[i] == (#[trigger] mounts@[i])@ by {}
    if all is Err {
        let i = choose|i: int|
            0 <= i < texts.len() && mount_fault(#[trigger] texts[i]) == first_mount_fault(texts)
                && forall|k: int| 0 <= k < i ==> mount_fault(#[trigger] texts[k]) is None;
        assert(mount_fault(mounts@[i]@) is Some);
    } else {
        assert forall|i: int| 0 <= i < mounts@.len() implies mount_fault(
            (#[trigger] mounts@[i])@,
        ) is None by {
            assert(mount_fault(texts[i]) is None);
        }
    }
}

/// A path is let through exactly where its components lead to something below the home,
/// and comes out as the absolute path of that.
pub proof fn only_paths_below_the_home_are_let_through(raw: &str, r: Result<String, DenError>)
    requires
        call_ensures(sanitize_file_path, (raw,), r),
        raw@.len() > 0,
        raw@[0] != '/',
    ensures
        r is Ok <==> walk(Seq::empty(), text::split(raw@, '/')) is Some,
        r is Ok ==> r->Ok_0@ == home_path(walk(Seq::empty(), text::split(raw@, '/'))->0),
        r is Err ==> r->Err_0@ == ErrorView::Other("path traversal blocked"@),
{
}

} // verus!
