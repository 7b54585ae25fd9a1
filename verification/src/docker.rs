//! What is asked of Docker and what is made of its answers.

use std::collections::HashMap;
use std::io::Read;

use vstd::prelude::*;
use vstd::utf8::*;

#[allow(unused_imports)]
use crate::api;
use crate::api::tail_after;
use crate::config::TierConfig;
use crate::error::DenError;
#[allow(unused_imports)]
use crate::error::ErrorView;
#[allow(unused_imports)]
use crate::scheduler;
#[allow(unused_imports)]
use crate::tarball;
use crate::tarball::claims_overrun;
#[allow(unused_imports)]
use crate::text;
use crate::text::{chars_of, join2, same_text, slice};

verus! {

// ---------------------------------------------------------------------------
// Actions
// ---------------------------------------------------------------------------

/// Something to be done to a container or a volume. A failure of it is ignored.
#[derive(Debug)]
pub enum DockerAction {
    /// Stop a container, with so many seconds of grace.
    StopContainer { id: String, timeout_secs: i32 },
    /// Remove a container by force, and leave its named volume alone.
    RemoveContainer { id: String },
    RemoveVolume { name: String },
}

/// The mathematical counterpart of [`DockerAction`].
pub enum ActionView {
    StopContainer { id: Seq<char>, timeout_secs: int },
    RemoveContainer { id: Seq<char> },
    RemoveVolume { name: Seq<char> },
}

impl View for DockerAction {
    type V = ActionView;

    open spec fn view(&self) -> ActionView {
        match *self {
            DockerAction::StopContainer { id, timeout_secs } => ActionView::StopContainer {
                id: id@,
                timeout_secs: timeout_secs as int,
            },
            DockerAction::RemoveContainer { id } => ActionView::RemoveContainer { id: id@ },
            DockerAction::RemoveVolume { name } => ActionView::RemoveVolume { name: name@ },
        }
    }
}

/// A list of actions.
pub open spec fn actions(v: Seq<DockerAction>) -> Seq<ActionView> {
    v.map_values(|a: DockerAction| a@)
}

/// Stopping and then removing a container.
pub open spec fn stop_and_remove(id: Seq<char>, timeout_secs: int) -> Seq<ActionView> {
    seq![
        ActionView::StopContainer { id, timeout_secs },
        ActionView::RemoveContainer { id },
    ]
}

/// Stop and then remove a container.
pub fn stop_and_remove_of(id: &str, timeout_secs: i32) -> (r: Vec<DockerAction>)
    ensures
        actions(r@) == stop_and_remove(id@, timeout_secs as int),
{
    let mut out: Vec<DockerAction> = Vec::new();
    out.push(DockerAction::StopContainer { id: id.to_string(), timeout_secs });
    out.push(DockerAction::RemoveContainer { id: id.to_string() });
    assert(actions(out@) =~= stop_and_remove(id@, timeout_secs as int));
    out
}

// ---------------------------------------------------------------------------
// Containers
// ---------------------------------------------------------------------------

/// How a container is made.
#[derive(Debug)]
pub struct ContainerSpec {
    pub image: String,
    /// Memory limit in bytes.
    pub memory: i64,
    pub nano_cpus: i64,
    pub pids_limit: i64,
    pub cap_drop: Vec<String>,
    pub cap_add: Vec<String>,
    pub security_opt: Vec<String>,
    pub readonly_rootfs: bool,
    pub tmpfs: Option<HashMap<String, String>>,
    pub network_mode: Option<String>,
    pub binds: Vec<String>,
    /// The label that marks what this runtime manages.
    pub label: (String, String),
}

/// A byte count read as a signed 64-bit number.
pub open spec fn signed_reading(n: int) -> int {
    if n >= 0x8000_0000_0000_0000 {
        n - 0x1_0000_0000_0000_0000
    } else {
        n
    }
}

/// What an optional map holds.
pub open spec fn opt_map(o: Option<HashMap<String, String>>) -> Option<Map<String, String>> {
    match o {
        Some(m) => Some(m@),
        None => None,
    }
}

/// The label that marks the containers and volumes of this runtime.
pub fn managed_label() -> (r: (String, String))
    ensures
        r.0@ == "den.managed"@,
        r.1@ == "true"@,
{
    ("den.managed".to_string(), "true".to_string())
}

fn signed(n: u64) -> (r: i64)
    ensures
        r == signed_reading(n as int),
{
    if n >= 0x8000_0000_0000_0000 {
        -((u64::MAX - n) as i64) - 1
    } else {
        n as i64
    }
}

fn single(s: &str) -> (r: Vec<String>)
    ensures
        text::texts(r@) == seq![s@],
{
    let mut out: Vec<String> = Vec::new();
    out.push(s.to_string());
    assert(text::texts(out@) =~= seq![s@]);
    out
}

/// How the container of a tier is made: the volume mounted at the sandbox home
/// before the further bind mounts, all capabilities dropped but one, and no new
/// privileges. `nano_cpus` is the tier's CPU share in billionths.
pub fn container_spec(
    tier: &TierConfig,
    nano_cpus: i64,
    volume_name: &str,
    extra_binds: &Vec<String>,
    network: &Option<String>,
) -> (r: ContainerSpec)
    requires
        scheduler::needed_bytes(tier.memory_mb) <= u64::MAX,
    ensures
        r.image@ == tier.image@,
        r.memory == signed_reading(scheduler::needed_bytes(tier.memory_mb)),
        r.nano_cpus == nano_cpus,
        r.pids_limit == tier.pids,
        text::texts(r.cap_drop@) == seq!["ALL"@],
        text::texts(r.cap_add@) == seq!["NET_BIND_SERVICE"@],
        text::texts(r.security_opt@) == seq!["no-new-privileges:true"@],
        r.readonly_rootfs == tier.readonly_rootfs,
        opt_map(r.tmpfs) == opt_map(tier.tmpfs),
        text::opt_text(r.network_mode) == text::opt_text(*network),
        text::texts(r.binds@) == seq![volume_name@ + ":/home/sandbox"@] + text::texts(
            extra_binds@,
        ),
        r.label.0@ == "den.managed"@,
        r.label.1@ == "true"@,
{
    let mut binds: Vec<String> = Vec::new();
    binds.push(join2(volume_name, ":/home/sandbox"));
    let ghost head = volume_name@ + ":/home/sandbox"@;
    let ghost all = text::texts(extra_binds@);
    let mut i: usize = 0;
    assert(text::texts(binds@) =~= seq![head] + all.take(0));
    while i < extra_binds.len()
        invariant
            i <= extra_binds.len(),
            all == text::texts(extra_binds@),
            text::texts(binds@) == seq![head] + all.take(i as int),
        decreases extra_binds.len() - i,
    {
        let ghost before = text::texts(binds@);
        binds.push(extra_binds[i].clone());
        assert(text::texts(binds@) =~= before.push(all[i as int]));
        assert(seq![head] + all.take(i + 1) =~= before.push(all[i as int]));
        i += 1;
    }
    assert(all.take(i as int) =~= all);
    ContainerSpec {
        image: tier.image.clone(),
        memory: signed(tier.memory_mb * 1048576),
        nano_cpus,
        pids_limit: tier.pids,
        cap_drop: single("ALL"),
        cap_add: single("NET_BIND_SERVICE"),
        security_opt: single("no-new-privileges:true"),
        readonly_rootfs: tier.readonly_rootfs,
        tmpfs: match &tier.tmpfs {
            Some(m) => Some(m.clone()),
            None => None,
        },
        network_mode: match network {
            Some(n) => Some(n.clone()),
            None => None,
        },
        binds,
        label: managed_label(),
    }
}

/// A yes-or-no entry of a container's state; no where the state or the entry is
/// missing.
pub fn state_flag(state: Option<Option<bool>>) -> (r: bool)
    ensures
        r == (state == Some(Some(true))),
{
    match state {
        Some(Some(b)) => b,
        _ => false,
    }
}

/// A network that a container is attached to, with its address there.
#[derive(Debug)]
pub struct Attachment {
    pub network: String,
    pub ip: Option<String>,
}

/// Address of the first network called `name`.
pub open spec fn address_in(nets: Seq<Attachment>, name: Seq<char>) -> Option<Seq<char>>
    decreases nets.len(),
{
    if nets.len() == 0 {
        None
    } else if nets[0].network@ == name {
        text::opt_text(nets[0].ip)
    } else {
        address_in(nets.drop_first(), name)
    }
}

/// The address that a container is reached at: that in the wanted network, or in
/// the first one listed where none is wanted.
pub open spec fn chosen_address(nets: Seq<Attachment>, wanted: Option<Seq<char>>) -> Option<
    Seq<char>,
> {
    match wanted {
        Some(name) => address_in(nets, name),
        None => if nets.len() == 0 {
            None
        } else {
            text::opt_text(nets[0].ip)
        },
    }
}

fn copy_opt(o: &Option<String>) -> (r: Option<String>)
    ensures
        text::opt_text(r) == text::opt_text(*o),
{
    match o {
        Some(s) => Some(s.clone()),
        None => None,
    }
}

fn address_in_of(nets: &Vec<Attachment>, name: &str) -> (r: Option<String>)
    ensures
        text::opt_text(r) == address_in(nets@, name@),
{
    let mut i: usize = 0;
    assert(nets@.skip(0) =~= nets@);
    while i < nets.len()
        invariant
            i <= nets.len(),
            address_in(nets@, name@) == address_in(nets@.skip(i as int), name@),
        decreases nets.len() - i,
    {
        assert(nets@.skip(i as int)[0] == nets@[i as int]);
        assert(nets@.skip(i as int).drop_first() =~= nets@.skip(i + 1));
        if same_text(nets[i].network.as_str(), name) {
            return copy_opt(&nets[i].ip);
        }
        i += 1;
    }
    None
}

/// The address of a container, from its attachments. Missing attachments, a
/// missing address and an empty one are errors.
pub fn container_ip(id: &str, nets: &Option<Vec<Attachment>>, wanted: &Option<String>) -> (r: Result<
    String,
    DenError,
>)
    ensures
        match *nets {
            None => r is Err && r->Err_0@ == ErrorView::Proxy(
                "no network settings for container "@ + id@,
            ),
            Some(v) => match chosen_address(v@, text::opt_text(*wanted)) {
                Some(ip) => if ip.len() > 0 {
                    r is Ok && r->Ok_0@ == ip
                } else {
                    r is Err && r->Err_0@ == ErrorView::Proxy("no IP for container "@ + id@)
                },
                None => r is Err && r->Err_0@ == ErrorView::Proxy("no IP for container "@ + id@),
            },
        },
{
    match nets {
        None => Err(DenError::Proxy(join2("no network settings for container ", id))),
        Some(v) => {
            let ip = match wanted {
                Some(name) => address_in_of(v, name.as_str()),
                None => if v.len() == 0 {
                    None
                } else {
                    copy_opt(&v[0].ip)
                },
            };
            match ip {
                Some(text) => if text.as_str().is_empty() {
                    Err(DenError::Proxy(join2("no IP for container ", id)))
                } else {
                    Ok(text)
                },
                None => Err(DenError::Proxy(join2("no IP for container ", id))),
            }
        },
    }
}

// ---------------------------------------------------------------------------
// Output of commands
// ---------------------------------------------------------------------------

/// A piece of a command's output.
#[derive(Debug)]
pub enum OutputFrame {
    StdOut(Vec<u8>),
    StdErr(Vec<u8>),
    Other,
}

/// Bytes as text, with a replacement character for each part that is no UTF-8.
pub uninterp spec fn lossy(bytes: Seq<u8>) -> Seq<char>;

/// `String::from_utf8_lossy`. The result depends on the bytes alone and is named
/// [`lossy`]; bytes that are UTF-8 are decoded unchanged.
#[verifier::external_body]
pub(crate) fn lossy_text(bytes: &Vec<u8>) -> (r: String)
    ensures
        r@ == lossy(bytes@),
        valid_utf8(bytes@) ==> r@ == decode_utf8(bytes@),
{
    String::from_utf8_lossy(bytes).into_owned()
}

#[derive(Debug)]
pub struct ExecResult {
    pub stdout: String,
    pub stderr: String,
    pub exit_code: i64,
}

/// The bytes that a frame adds to the standard error (`err` true) or to the
/// standard output (`err` false).
pub open spec fn stream_bytes(frame: OutputFrame, err: bool) -> Option<Seq<u8>> {
    match frame {
        OutputFrame::StdOut(b) => if err {
            None
        } else {
            Some(b@)
        },
        OutputFrame::StdErr(b) => if err {
            Some(b@)
        } else {
            None
        },
        OutputFrame::Other => None,
    }
}

/// One of the two streams in a series of frames, as text.
pub open spec fn stream_text(frames: Seq<OutputFrame>, err: bool) -> Seq<char>
    decreases frames.len(),
{
    if frames.len() == 0 {
        Seq::empty()
    } else {
        stream_text(frames.drop_last(), err) + match stream_bytes(frames.last(), err) {
            Some(b) => lossy(b),
            None => Seq::empty(),
        }
    }
}

/// Whether one of the two streams in a series of frames is UTF-8, frame by frame.
pub open spec fn stream_is_utf8(frames: Seq<OutputFrame>, err: bool) -> bool {
    forall|i: int|
        #![trigger frames[i]]
        0 <= i < frames.len() && stream_bytes(frames[i], err) is Some ==> valid_utf8(
            stream_bytes(frames[i], err)->0,
        )
}

/// One of the two streams in a series of frames, decoded frame by frame.
pub open spec fn stream_decoded(frames: Seq<OutputFrame>, err: bool) -> Seq<char>
    decreases frames.len(),
{
    if frames.len() == 0 {
        Seq::empty()
    } else {
        stream_decoded(frames.drop_last(), err) + match stream_bytes(frames.last(), err) {
            Some(b) => decode_utf8(b),
            None => Seq::empty(),
        }
    }
}

/// The exit code that is reported: -1 where Docker tells none.
pub open spec fn reported_exit(code: Option<i64>) -> int {
    match code {
        Some(c) => c as int,
        None => -1,
    }
}

/// The exit code that is reported.
pub fn exit_code_or_default(code: Option<i64>) -> (r: i64)
    ensures
        r == reported_exit(code),
{
    match code {
        Some(c) => c,
        None => -1,
    }
}

/// What a finished command has written, standard output and standard error
/// apart, each in the order of the frames. Output that is UTF-8 comes through
/// unchanged.
pub fn collect_output(frames: &Vec<OutputFrame>, exit_code: Option<i64>) -> (r: ExecResult)
    ensures
        r.stdout@ == stream_text(frames@, false),
        r.stderr@ == stream_text(frames@, true),
        r.exit_code == reported_exit(exit_code),
        stream_is_utf8(frames@, false) ==> r.stdout@ == stream_decoded(frames@, false),
        stream_is_utf8(frames@, true) ==> r.stderr@ == stream_decoded(frames@, true),
        stream_is_utf8(frames@, false) ==> encode_utf8(r.stdout@) == frames@.filter_map(
            |f: OutputFrame|
                match f {
                    OutputFrame::StdOut(b) => Some(b@),
                    _ => None,
                },
        ).flatten_alt(),
        stream_is_utf8(frames@, true) ==> encode_utf8(r.stderr@) == frames@.filter_map(
            |f: OutputFrame|
                match f {
                    OutputFrame::StdErr(b) => Some(b@),
                    _ => None,
                },
        ).flatten_alt(),
{
    let mut stdout = String::new();
    let mut stderr = String::new();
    let mut i: usize = 0;
    assert(frames@.take(0) =~= Seq::empty());
    while i < frames.len()
        invariant
            i <= frames.len(),
            stdout@ == stream_text(frames@.take(i as int), false),
            stderr@ == stream_text(frames@.take(i as int), true),
            stream_is_utf8(frames@, false) ==> stdout@ == stream_decoded(
                frames@.take(i as int),
                false,
            ),
            stream_is_utf8(frames@, true) ==> stderr@ == stream_decoded(
                frames@.take(i as int),
                true,
            ),
        decreases frames.len() - i,
    {
        let ghost next = frames@.take(i + 1);
        assert(next.drop_last() =~= frames@.take(i as int));
        assert(next.last() == frames@[i as int]);
        match &frames[i] {
            OutputFrame::StdOut(b) => {
                stdout.append(lossy_text(b).as_str());
            },
            OutputFrame::StdErr(b) => {
                stderr.append(lossy_text(b).as_str());
            },
            OutputFrame::Other => {},
        }
        assert(stdout@ =~= stream_text(next, false));
        assert(stderr@ =~= stream_text(next, true));
        assert(stream_is_utf8(frames@, false) ==> stdout@ =~= stream_decoded(next, false));
        assert(stream_is_utf8(frames@, true) ==> stderr@ =~= stream_decoded(next, true));
        i += 1;
    }
    assert(frames@.take(i as int) =~= frames@);
    proof {
        what_was_written_is_told(frames@);
    }
    ExecResult { stdout, stderr, exit_code: exit_code_or_default(exit_code) }
}

// ---------------------------------------------------------------------------
// Files
// ---------------------------------------------------------------------------

/// `path` without trailing slashes and without trailing `.` components.
pub open spec fn trim_tail(path: Seq<char>) -> Seq<char>
    decreases path.len(),
{
    let n = path.len() as int;
    if n > 0 && path[n - 1] == '/' {
        trim_tail(path.drop_last())
    } else if n > 1 && path[n - 1] == '.' && path[n - 2] == '/' {
        trim_tail(path.drop_last())
    } else {
        path
    }
}

/// The last component of a path, where it names a file.
pub open spec fn base_name(path: Seq<char>) -> Option<Seq<char>> {
    let name = text::after_last(trim_tail(path), '/');
    if name.len() == 0 || api::is_dot(name) || api::is_dot_dot(name) {
        None
    } else {
        Some(name)
    }
}

/// The directory that holds the file that a path names.
pub open spec fn parent_dir(path: Seq<char>) -> Seq<char> {
    let t = trim_tail(path);
    let dir = trim_tail(t.take(t.len() - text::after_last(t, '/').len()));
    if dir.len() == 0 && path.len() > 0 && path[0] == '/' {
        seq!['/']
    } else {
        dir
    }
}

/// Length of `path[..end]` without trailing slashes and `.` components.
fn trimmed_len(path: &Vec<char>, end: usize) -> (r: usize)
    requires
        end <= path.len(),
    ensures
        r <= end,
        path@.take(r as int) == trim_tail(path@.take(end as int)),
{
    let mut n: usize = end;
    while n > 0 && (path[n - 1] == '/' || (n > 1 && path[n - 1] == '.' && path[n - 2] == '/'))
        invariant
            n <= end <= path.len(),
            trim_tail(path@.take(n as int)) == trim_tail(path@.take(end as int)),
        decreases n,
    {
        assert(path@.take(n as int).drop_last() =~= path@.take(n - 1));
        n -= 1;
    }
    n
}

proof fn lemma_after_last_len(s: Seq<char>, sep: char)
    ensures
        text::after_last(s, sep).len() <= s.len(),
        text::after_last(s, sep) == s.skip(s.len() - text::after_last(s, sep).len()),
    decreases s.len(),
{
    if s.len() > 0 && s.last() != sep {
        lemma_after_last_len(s.drop_last(), sep);
        let a = text::after_last(s.drop_last(), sep);
        assert(text::after_last(s, sep) =~= s.skip(s.len() - a.len() - 1));
    } else {
        assert(text::after_last(s, sep) =~= s.skip(s.len() as int));
    }
}

/// Directory and name of the file that a path names.
pub fn file_parts(path: &str) -> (r: Option<(String, String)>)
    ensures
        match base_name(path@) {
            Some(name) => r is Some && r->Some_0.0@ == parent_dir(path@) && r->Some_0.1@
                == name,
            None => r is None,
        },
{
    let chars = chars_of(path);
    assert(path@.take(path@.len() as int) =~= path@);
    let n = trimmed_len(&chars, chars.len());
    let trimmed = slice(path, 0, n);
    assert(trimmed@ =~= path@.take(n as int));
    let name = tail_after(trimmed.as_str(), '/');
    let k = name.as_str().unicode_len();
    if k == 0 || (k == 1 && name.as_str().get_char(0) == '.') || (k == 2 && name.as_str().get_char(
        0,
    ) == '.' && name.as_str().get_char(1) == '.') {
        return None;
    }
    proof {
        lemma_after_last_len(trimmed@, '/');
        assert(trimmed@.take(n - k) =~= path@.take(n - k));
    }
    let m = trimmed_len(&chars, n - k);
    let dir = if m == 0 && chars.len() > 0 && chars[0] == '/' {
        proof {
            reveal_strlit("/");
            assert("/"@ =~= seq!['/']);
        }
        "/".to_string()
    } else {
        let d = slice(path, 0, m);
        assert(d@ =~= path@.take(m as int));
        d
    };
    Some((dir, name))
}

/// What follows the last slash of a path is its last component.
proof fn lemma_after_last_is(a: Seq<char>, b: Seq<char>)
    requires
        !b.contains('/'),
    ensures
        text::after_last(a + seq!['/'] + b, '/') == b,
    decreases b.len(),
{
    let s = a + seq!['/'] + b;
    if b.len() == 0 {
        assert(s.last() == '/');
        assert(text::after_last(s, '/') =~= b);
    } else {
        let c = b.drop_last();
        assert(b[b.len() - 1] != '/');
        assert forall|i: int| 0 <= i < c.len() implies c[i] != '/' by {
            assert(b[i] != '/');
        }
        lemma_after_last_is(a, c);
        assert(s.drop_last() =~= a + seq!['/'] + c);
        assert(s.last() == b.last());
        assert(text::after_last(s, '/') =~= b);
    }
}

/// A path below the sandbox home ends in no slash and no `.` component.
proof fn lemma_home_path_is_trim(parts: Seq<Seq<char>>)
    requires
        forall|i: int| 0 <= i < parts.len() ==> api::plain_part(#[trigger] parts[i]),
    ensures
        api::home_path(parts).len() > 0,
        api::home_path(parts)[0] == '/',
        trim_tail(api::home_path(parts)) == api::home_path(parts),
    decreases parts.len(),
{
    let p = api::home_path(parts);
    if parts.len() == 0 {
        reveal_strlit("/home/sandbox");
    } else {
        let front = parts.drop_last();
        let last = parts.last();
        assert forall|i: int| 0 <= i < front.len() implies api::plain_part(#[trigger] front[i]) by {
            assert(front[i] == parts[i]);
        }
        lemma_home_path_is_trim(front);
        assert(api::plain_part(parts[parts.len() - 1]));
        assert(p.last() == last[last.len() - 1]);
        if last.len() > 1 {
            assert(p[p.len() - 2] == last[last.len() - 2]);
        }
    }
}

/// A path that names something below the sandbox home is taken apart into its
/// directory and its last component.
pub proof fn home_path_has_parts(parts: Seq<Seq<char>>)
    requires
        parts.len() > 0,
        forall|i: int| 0 <= i < parts.len() ==> api::plain_part(#[trigger] parts[i]),
    ensures
        base_name(api::home_path(parts)) == Some(parts.last()),
        parent_dir(api::home_path(parts)) == api::home_path(parts.drop_last()),
{
    let p = api::home_path(parts);
    let front = parts.drop_last();
    let h = api::home_path(front);
    let last = parts.last();
    assert(api::plain_part(parts[parts.len() - 1]));
    assert forall|i: int| 0 <= i < front.len() implies api::plain_part(#[trigger] front[i]) by {
        assert(front[i] == parts[i]);
    }
    lemma_home_path_is_trim(parts);
    lemma_home_path_is_trim(front);
    lemma_after_last_is(h, last);
    let dir = p.take(p.len() - last.len());
    assert(dir =~= h + seq!['/']);
    assert(dir.drop_last() =~= h);
    assert(dir.last() == '/');
}

/// A failure of the archive library, by the step that failed.
#[derive(Debug)]
pub enum ArchiveError {
    Append(String),
    Finish(String),
    Read(String),
    Entry(String),
}

/// The mathematical counterpart of [`ArchiveError`].
pub enum ArchiveErrorView {
    Append(Seq<char>),
    Finish(Seq<char>),
    Read(Seq<char>),
    Entry(Seq<char>),
}

impl View for ArchiveError {
    type V = ArchiveErrorView;

    open spec fn view(&self) -> ArchiveErrorView {
        match *self {
            ArchiveError::Append(m) => ArchiveErrorView::Append(m@),
            ArchiveError::Finish(m) => ArchiveErrorView::Finish(m@),
            ArchiveError::Read(m) => ArchiveErrorView::Read(m@),
            ArchiveError::Entry(m) => ArchiveErrorView::Entry(m@),
        }
    }
}

/// The bytes of an archive, or why there is none.
pub open spec fn packed(r: Result<Vec<u8>, ArchiveError>) -> Result<Seq<u8>, ArchiveErrorView> {
    match r {
        Ok(b) => Ok(b@),
        Err(e) => Err(e@),
    }
}

/// The contents of an archive's first file, or why there are none.
pub open spec fn unpacked(r: Result<Option<Vec<u8>>, ArchiveError>) -> Result<
    Option<Seq<u8>>,
    ArchiveErrorView,
> {
    match r {
        Ok(Some(b)) => Ok(Some(b@)),
        Ok(None) => Ok(None),
        Err(e) => Err(e@),
    }
}

/// What was read are these contents.
pub open spec fn reads_back(
    read: Result<Option<Seq<u8>>, ArchiveErrorView>,
    content: Seq<u8>,
) -> bool {
    match read {
        Ok(Some(c)) => c == content,
        _ => false,
    }
}

/// A name that a file can have in an archive as it stands.
pub open spec fn plain_name(name: Seq<char>) -> bool {
    api::plain_part(name) && !name.contains('\0')
}

/// The archive of one file with a name, contents and permissions.
pub uninterp spec fn archive_of(name: Seq<char>, content: Seq<u8>, mode: u32) -> Result<
    Seq<u8>,
    ArchiveErrorView,
>;

/// The contents of the first file of an archive; `None` where it has no file.
pub uninterp spec fn first_file(archive: Seq<u8>) -> Result<Option<Seq<u8>>, ArchiveErrorView>;

/// `tar::Builder` over a vector, with one `append_data` under a GNU header of the
/// content's size, under Unix rules for paths. The result depends on the arguments
/// alone and is named [`archive_of`]. A plain name is always taken, and what is
/// packed is what reading the first file back gives. Only headers of regular files
/// and of long names are written, so the archive never overruns.
#[verifier::external_body]
fn tar_pack(name: &str, content: &Vec<u8>, mode: u32) -> (r: Result<Vec<u8>, ArchiveError>)
    ensures
        packed(r) == archive_of(name@, content@, mode),
        plain_name(name@) ==> r is Ok,
        r is Ok ==> reads_back(first_file(r->Ok_0@), content@),
        r is Ok ==> !tarball::overruns(r->Ok_0@),
{
    let mut builder = tar::Builder::new(Vec::new());
    let mut header = tar::Header::new_gnu();
    header.set_size(content.len() as u64);
    header.set_mode(mode);
    header.set_cksum();
    let appended = builder.append_data(&mut header, name, content.as_slice());
    appended.map_err(|e| ArchiveError::Append(e.to_string()))?;
    builder.into_inner().map_err(|e| ArchiveError::Finish(e.to_string()))
}

/// `tar::Archive::entries`, of which the first entry is read to its end. The
/// result depends on the bytes alone, as long as memory holds the contents, and is
/// named [`first_file`]. An archive that overruns is left out: there `tar` adds to
/// a position without a check, which can panic, or fills a gap that no vector
/// holds.
#[verifier::external_body]
fn tar_first(archive: &Vec<u8>) -> (r: Result<Option<Vec<u8>>, ArchiveError>)
    requires
        !tarball::overruns(archive@),
    ensures
        unpacked(r) == first_file(archive@),
{
    let mut archive = tar::Archive::new(archive.as_slice());
    let mut entries = archive.entries().map_err(|e| ArchiveError::Read(e.to_string()))?;
    match entries.next() {
        Some(entry) => {
            let mut entry = entry.map_err(|e| ArchiveError::Entry(e.to_string()))?;
            let mut content = Vec::new();
            let read = entry.read_to_end(&mut content);
            read.map_err(|e| ArchiveError::Read(e.to_string()))?;
            Ok(Some(content))
        },
        None => Ok(None),
    }
}

/// The message of an archive failure.
pub open spec fn archive_message(e: ArchiveErrorView) -> Seq<char> {
    match e {
        ArchiveErrorView::Append(m) => "tar append: "@ + m,
        ArchiveErrorView::Finish(m) => "tar finalize: "@ + m,
        ArchiveErrorView::Read(m) => "tar read: "@ + m,
        ArchiveErrorView::Entry(m) => "tar entry: "@ + m,
    }
}

fn archive_failure(e: &ArchiveError) -> (r: DenError)
    ensures
        r@ == ErrorView::Other(archive_message(e@)),
{
    DenError::Other(
        match e {
            ArchiveError::Append(m) => join2("tar append: ", m.as_str()),
            ArchiveError::Finish(m) => join2("tar finalize: ", m.as_str()),
            ArchiveError::Read(m) => join2("tar read: ", m.as_str()),
            ArchiveError::Entry(m) => join2("tar entry: ", m.as_str()),
        },
    )
}

/// An archive and the directory that it is unpacked in.
#[derive(Debug)]
pub struct Upload {
    pub dir: String,
    pub archive: Vec<u8>,
}

/// Permissions of an uploaded file: read and write for its owner, read for
/// everybody else.
pub const FILE_MODE: u32 = 0o644;

/// Pack a file for upload to `file_path`. Reading the archive back gives the
/// content.
pub fn pack_upload(file_path: &str, content: &Vec<u8>) -> (r: Result<Upload, DenError>)
    ensures
        match base_name(file_path@) {
            None => r is Err && r->Err_0@ == ErrorView::Other(
                "invalid file path: "@ + file_path@,
            ),
            Some(name) => match archive_of(name, content@, FILE_MODE) {
                Ok(bytes) => r is Ok && r->Ok_0.dir@ == parent_dir(file_path@)
                    && r->Ok_0.archive@ == bytes,
                Err(e) => r is Err && r->Err_0@ == ErrorView::Other(archive_message(e)),
            },
        },
        base_name(file_path@) is Some && plain_name(base_name(file_path@)->0) ==> r is Ok,
        r is Ok ==> reads_back(first_file(r->Ok_0.archive@), content@),
        r is Ok ==> !tarball::overruns(r->Ok_0.archive@),
{
    match file_parts(file_path) {
        None => Err(DenError::Other(join2("invalid file path: ", file_path))),
        Some((dir, name)) => upload_of(dir, tar_pack(name.as_str(), content, FILE_MODE)),
    }
}

/// What comes of an attempt to pack a file for `dir`.
pub fn upload_of(dir: String, archive: Result<Vec<u8>, ArchiveError>) -> (r: Result<
    Upload,
    DenError,
>)
    ensures
        match archive {
            Ok(bytes) => r is Ok && r->Ok_0.dir@ == dir@ && r->Ok_0.archive@ == bytes@,
            Err(e) => r is Err && r->Err_0@ == ErrorView::Other(archive_message(e@)),
        },
{
    match archive {
        Ok(archive) => Ok(Upload { dir, archive }),
        Err(e) => Err(archive_failure(&e)),
    }
}

/// The contents of the downloaded file, out of the archive that it came in. An
/// archive that claims more than can be read is refused.
pub fn unpack_download(file_path: &str, archive: &Vec<u8>) -> (r: Result<Vec<u8>, DenError>)
    ensures
        tarball::overruns(archive@) ==> r is Err && r->Err_0@ == ErrorView::Other(
            "tar entry: member claims more than can be read"@,
        ),
        !tarball::overruns(archive@) ==> match first_file(archive@) {
            Ok(Some(content)) => r is Ok && r->Ok_0@ == content,
            Ok(None) => r is Err && r->Err_0@ == ErrorView::Other(
                "file not found in archive: "@ + file_path@,
            ),
            Err(e) => r is Err && r->Err_0@ == ErrorView::Other(archive_message(e)),
        },
{
    if claims_overrun(archive) {
        return Err(DenError::Other("tar entry: member claims more than can be read".to_string()));
    }
    download_of(file_path, tar_first(archive))
}

/// What comes of an attempt to read a downloaded archive.
pub fn download_of(file_path: &str, found: Result<Option<Vec<u8>>, ArchiveError>) -> (r: Result<
    Vec<u8>,
    DenError,
>)
    ensures
        match found {
            Ok(Some(content)) => r is Ok && r->Ok_0@ == content@,
            Ok(None) => r is Err && r->Err_0@ == ErrorView::Other(
                "file not found in archive: "@ + file_path@,
            ),
            Err(e) => r is Err && r->Err_0@ == ErrorView::Other(archive_message(e@)),
        },
{
    match found {
        Ok(Some(content)) => Ok(content),
        Ok(None) => Err(DenError::Other(join2("file not found in archive: ", file_path))),
        Err(e) => Err(archive_failure(&e)),
    }
}

/// The error of a download that Docker refused: a missing file where it answered
/// with status 404, its own message otherwise.
pub fn download_refused(status: Option<u16>, message: &str, file_path: &str) -> (r: DenError)
    ensures
        status == Some(404u16) ==> r@ == (ErrorView::FileNotFound { path: file_path@ }),
        status != Some(404u16) ==> r@ == ErrorView::Docker(message@),
{
    match status {
        Some(404) => DenError::FileNotFound { path: file_path.to_string() },
        _ => DenError::Docker(message.to_string()),
    }
}

// ---------------------------------------------------------------------------
// Statistics
// ---------------------------------------------------------------------------

/// CPU counters of a sample, as far as Docker tells them.
#[derive(Debug, Clone, Copy)]
pub struct CpuSample {
    pub total_usage: Option<u64>,
    pub system_usage: Option<u64>,
    pub online_cpus: Option<u32>,
}

/// A sample of a container's statistics, as far as Docker tells them.
#[derive(Debug, Clone, Copy)]
pub struct StatsSample {
    pub memory_usage: Option<u64>,
    pub memory_limit: Option<u64>,
    pub pids_current: Option<u64>,
    pub pids_limit: Option<u64>,
    pub cpu: Option<CpuSample>,
    pub precpu: Option<CpuSample>,
}

/// CPU counters of this sample and of the one before it.
#[derive(Debug, Clone, Copy)]
pub struct CpuCounters {
    pub usage: u64,
    pub previous_usage: u64,
    pub system: u64,
    pub previous_system: u64,
    pub online_cpus: u32,
}

/// The counters that diagnostics are made from.
#[derive(Debug, Clone, Copy)]
pub struct Counters {
    pub memory_usage_bytes: u64,
    pub memory_limit_bytes: u64,
    pub pids_current: u64,
    pub pids_limit: u64,
    pub cpu: Option<CpuCounters>,
}

/// A counter that may be missing; a missing one is 0.
pub open spec fn or_zero(o: Option<u64>) -> u64 {
    match o {
        Some(n) => n,
        None => 0,
    }
}

fn zero_if_missing(o: Option<u64>) -> (r: u64)
    ensures
        r == or_zero(o),
{
    match o {
        Some(n) => n,
        None => 0,
    }
}

/// The CPU counters of a sample and of the one before it: what is missing counts
/// as 0, a missing number of CPUs as 1.
pub open spec fn cpu_counters(now: CpuSample, before: Option<CpuSample>) -> CpuCounters {
    CpuCounters {
        usage: or_zero(now.total_usage),
        previous_usage: match before {
            Some(p) => or_zero(p.total_usage),
            None => 0,
        },
        system: or_zero(now.system_usage),
        previous_system: match before {
            Some(p) => or_zero(p.system_usage),
            None => 0,
        },
        online_cpus: match now.online_cpus {
            Some(n) => n,
            None => 1,
        },
    }
}

/// The counters of a sample. Without CPU counters there are none of these.
pub open spec fn counters_of(sample: StatsSample) -> Counters {
    Counters {
        memory_usage_bytes: or_zero(sample.memory_usage),
        memory_limit_bytes: or_zero(sample.memory_limit),
        pids_current: or_zero(sample.pids_current),
        pids_limit: or_zero(sample.pids_limit),
        cpu: match sample.cpu {
            Some(c) => Some(cpu_counters(c, sample.precpu)),
            None => None,
        },
    }
}

/// The counters that the statistics of a container give. It is an error where
/// Docker gave no sample.
pub fn container_counters(id: &str, sample: &Option<StatsSample>) -> (r: Result<
    Counters,
    DenError,
>)
    ensures
        match *sample {
            Some(s) => r == Ok::<Counters, DenError>(counters_of(s)),
            None => r is Err && r->Err_0@ == ErrorView::Other(
                "no stats returned for container "@ + id@,
            ),
        },
{
    match sample {
        Some(s) => Ok(counters(s)),
        None => Err(DenError::Other(join2("no stats returned for container ", id))),
    }
}

/// The counters of a sample.
pub fn counters(sample: &StatsSample) -> (r: Counters)
    ensures
        r == counters_of(*sample),
{
    let cpu = match sample.cpu {
        Some(c) => {
            let (previous_usage, previous_system) = match sample.precpu {
                Some(p) => (zero_if_missing(p.total_usage), zero_if_missing(p.system_usage)),
                None => (0, 0),
            };
            Some(
                CpuCounters {
                    usage: zero_if_missing(c.total_usage),
                    previous_usage,
                    system: zero_if_missing(c.system_usage),
                    previous_system,
                    online_cpus: match c.online_cpus {
                        Some(n) => n,
                        None => 1,
                    },
                },
            )
        },
        None => None,
    };
    Counters {
        memory_usage_bytes: zero_if_missing(sample.memory_usage),
        memory_limit_bytes: zero_if_missing(sample.memory_limit),
        pids_current: zero_if_missing(sample.pids_current),
        pids_limit: zero_if_missing(sample.pids_limit),
        cpu,
    }
}

// ---------------------------------------------------------------------------
// Laws
// ---------------------------------------------------------------------------

/// What an action shows is what it is about; a list of actions shows each in its
/// place. Stopping and removing are asked for in this order.
pub proof fn the_view_shows_the_actions(
    v: Seq<DockerAction>,
    i: int,
    id: String,
    name: String,
    secs: i32,
)
    requires
        0 <= i < v.len(),
    ensures
        actions(v).len() == v.len(),
        actions(v)[i] == v[i]@,
        (DockerAction::StopContainer { id, timeout_secs: secs })@ == (ActionView::StopContainer {
            id: id@,
            timeout_secs: secs as int,
        }),
        (DockerAction::RemoveContainer { id })@ == (ActionView::RemoveContainer { id: id@ }),
        (DockerAction::RemoveVolume { name })@ == (ActionView::RemoveVolume { name: name@ }),
        stop_and_remove(id@, secs as int).len() == 2,
        stop_and_remove(id@, secs as int)[0] == (ActionView::StopContainer {
            id: id@,
            timeout_secs: secs as int,
        }),
        stop_and_remove(id@, secs as int)[1] == (ActionView::RemoveContainer { id: id@ }),
{
}

/// A byte count is read as the signed number that it is equal to modulo 2 to the
/// power of 64; what is in an optional map is that map.
pub proof fn readings_keep_the_number(n: u64, o: Option<HashMap<String, String>>)
    ensures
        i64::MIN <= signed_reading(n as int) <= i64::MAX,
        signed_reading(n as int) == n || signed_reading(n as int) == n - 0x1_0000_0000_0000_0000,
        opt_map(o) is Some <==> o is Some,
        o is Some ==> opt_map(o) == Some(o->0@),
{
}

/// A container is reached at its address in the first network of the wanted name, or
/// in the first network of all where none is wanted. Without such a network there is
/// no address.
pub proof fn where_a_container_is_reached(nets: Seq<Attachment>, name: Seq<char>, i: int)
    ensures
        0 <= i < nets.len() && nets[i].network@ == name && (forall|k: int|
            0 <= k < i ==> (#[trigger] nets[k]).network@ != name) ==> match nets[i].ip {
            Some(ip) => chosen_address(nets, Some(name)) == Some(ip@),
            None => chosen_address(nets, Some(name)) is None,
        },
        (forall|k: int| 0 <= k < nets.len() ==> (#[trigger] nets[k]).network@ != name)
            ==> chosen_address(nets, Some(name)) is None,
        nets.len() == 0 ==> chosen_address(nets, None) is None,
        nets.len() > 0 ==> match nets[0].ip {
            Some(ip) => chosen_address(nets, None) == Some(ip@),
            None => chosen_address(nets, None) is None,
        },
    decreases nets.len(),
{
    if nets.len() > 0 {
        let rest = nets.drop_first();
        assert forall|k: int| 0 <= k < rest.len() implies #[trigger] rest[k] == nets[k + 1] by {}
        where_a_container_is_reached(rest, name, i - 1);
        if 0 < i < nets.len() && nets[i].network@ == name && (forall|k: int|
            0 <= k < i ==> (#[trigger] nets[k]).network@ != name) {
            assert(nets[0].network@ != name);
            assert(rest[i - 1] == nets[i]);
        }
        if forall|k: int| 0 <= k < nets.len() ==> (#[trigger] nets[k]).network@ != name {
            assert(nets[0].network@ != name);
        }
    }
}

/// Texts are encoded one after the other.
proof fn lemma_encode_in_two(a: Seq<char>, b: Seq<char>)
    ensures
        encode_utf8(a + b) == encode_utf8(a) + encode_utf8(b),
    decreases a.len(),
{
    if a.len() == 0 {
        assert(a + b =~= b);
        assert(encode_utf8(a) + encode_utf8(b) =~= encode_utf8(b));
    } else {
        lemma_encode_in_two(a.drop_first(), b);
        assert((a + b).drop_first() =~= a.drop_first() + b);
        assert(encode_utf8(a + b) =~= encode_utf8(a) + encode_utf8(b));
    }
}

/// Nothing that a command writes is lost or changed: where all that it wrote to its
/// standard output is UTF-8, frame by frame, the decoded text encodes to just the
/// bytes of these frames, one after the other; and likewise for its standard error.
pub proof fn what_was_written_is_told(frames: Seq<OutputFrame>)
    ensures
        stream_is_utf8(frames, false) <==> forall|i: int|
            0 <= i < frames.len() && frames[i] is StdOut ==> valid_utf8(
                (#[trigger] frames[i])->StdOut_0@,
            ),
        stream_is_utf8(frames, true) <==> forall|i: int|
            0 <= i < frames.len() && frames[i] is StdErr ==> valid_utf8(
                (#[trigger] frames[i])->StdErr_0@,
            ),
        stream_is_utf8(frames, false) ==> encode_utf8(stream_decoded(frames, false))
            == frames.filter_map(
            |f: OutputFrame|
                match f {
                    OutputFrame::StdOut(b) => Some(b@),
                    _ => None,
                },
        ).flatten_alt(),
        stream_is_utf8(frames, true) ==> encode_utf8(stream_decoded(frames, true))
            == frames.filter_map(
            |f: OutputFrame|
                match f {
                    OutputFrame::StdErr(b) => Some(b@),
                    _ => None,
                },
        ).flatten_alt(),
    decreases frames.len(),
{
    let out = |f: OutputFrame|
        match f {
            OutputFrame::StdOut(b) => Some(b@),
            _ => None,
        };
    let err = |f: OutputFrame|
        match f {
            OutputFrame::StdErr(b) => Some(b@),
            _ => None,
        };
    if frames.len() > 0 {
        let front = frames.drop_last();
        let last = frames.last();
        assert forall|i: int| 0 <= i < front.len() implies #[trigger] front[i] == frames[i] by {}
        assert(last == frames[frames.len() - 1]);
        what_was_written_is_told(front);
        if stream_is_utf8(frames, false) {
            assert(stream_is_utf8(front, false));
            lemma_one_more_frame(frames, false);
            if let OutputFrame::StdOut(b) = last {
                let all = front.filter_map(out) + seq![b@];
                assert(all.drop_last() =~= front.filter_map(out));
                assert(frames.filter_map(out) == all);
            }
        }
        if stream_is_utf8(frames, true) {
            assert(stream_is_utf8(front, true));
            lemma_one_more_frame(frames, true);
            if let OutputFrame::StdErr(b) = last {
                let all = front.filter_map(err) + seq![b@];
                assert(all.drop_last() =~= front.filter_map(err));
                assert(frames.filter_map(err) == all);
            }
        }
    }
}

proof fn lemma_one_more_frame(frames: Seq<OutputFrame>, err: bool)
    requires
        frames.len() > 0,
        stream_is_utf8(frames, err),
    ensures
        encode_utf8(stream_decoded(frames, err)) == encode_utf8(
            stream_decoded(frames.drop_last(), err),
        ) + match stream_bytes(frames.last(), err) {
            Some(b) => b,
            None => Seq::empty(),
        },
{
    let before = stream_decoded(frames.drop_last(), err);
    assert(frames.last() == frames[frames.len() - 1]);
    match stream_bytes(frames.last(), err) {
        Some(b) => {
            lemma_encode_in_two(before, decode_utf8(b));
            decode_utf8_encode_utf8(b);
        },
        None => {
            assert(before + Seq::<char>::empty() =~= before);
            assert(encode_utf8(before) + Seq::<u8>::empty() =~= encode_utf8(before));
        },
    }
}

/// Each frame adds the text of all its bytes, replaced where they are no UTF-8, to
/// the stream that it is of, and to no other.
pub proof fn frames_are_told_whole(frames: Seq<OutputFrame>, b: Vec<u8>)
    ensures
        stream_text(Seq::empty(), false).len() == 0,
        stream_text(Seq::empty(), true).len() == 0,
        stream_text(frames.push(OutputFrame::StdOut(b)), false) == stream_text(frames, false)
            + lossy(b@),
        stream_text(frames.push(OutputFrame::StdOut(b)), true) == stream_text(frames, true),
        stream_text(frames.push(OutputFrame::StdErr(b)), true) == stream_text(frames, true) + lossy(
            b@,
        ),
        stream_text(frames.push(OutputFrame::StdErr(b)), false) == stream_text(frames, false),
        stream_text(frames.push(OutputFrame::Other), false) == stream_text(frames, false),
        stream_text(frames.push(OutputFrame::Other), true) == stream_text(frames, true),
{
    assert(frames.push(OutputFrame::StdOut(b)).drop_last() =~= frames);
    assert(frames.push(OutputFrame::StdErr(b)).drop_last() =~= frames);
    assert(frames.push(OutputFrame::Other).drop_last() =~= frames);
}

/// The exit code is told as it is, and as -1 where there is none.
pub proof fn exit_codes_are_told_as_they_are(code: i64)
    ensures
        reported_exit(Some(code)) == code,
        reported_exit(None) == -1,
{
}

/// A path made of a directory, a slash and a name names that file in that directory,
/// whatever the directory; a name alone is in no directory, and a name behind one
/// slash is at the root. Slashes and `.` components at the end make no difference.
pub proof fn a_path_names_a_file_in_a_directory(dir: Seq<char>, name: Seq<char>, path: Seq<char>)
    requires
        name.len() > 0,
        !name.contains('/'),
        name != seq!['.'],
        name != seq!['.', '.'],
        path.len() > 0,
    ensures
        trim_tail(dir) == dir && dir.len() > 0 ==> base_name(dir + seq!['/'] + name) == Some(name)
            && parent_dir(dir + seq!['/'] + name) == dir,
        base_name(seq!['/'] + name) == Some(name),
        parent_dir(seq!['/'] + name) == seq!['/'],
        base_name(name) == Some(name),
        parent_dir(name) == Seq::<char>::empty(),
        base_name(path + seq!['/']) == base_name(path),
        parent_dir(path + seq!['/']) == parent_dir(path),
        base_name(path + seq!['/', '.']) == base_name(path),
        parent_dir(path + seq!['/', '.']) == parent_dir(path),
        base_name(dir + seq!['/', '.', '.']) is None,
        base_name(seq!['.', '.']) is None,
        base_name(Seq::empty()) is None,
        base_name(seq!['/']) is None,
{
    let n = name.len() as int;
    assert(!(n == 1 && name[0] == '.')) by {
        if n == 1 && name[0] == '.' {
            assert(name =~= seq!['.']);
        }
    }
    assert(!(n == 2 && name[0] == '.' && name[1] == '.')) by {
        if n == 2 && name[0] == '.' && name[1] == '.' {
            assert(name =~= seq!['.', '.']);
        }
    }
    assert forall|k: int| 0 <= k < n implies name[k] != '/' by {
        if name[k] == '/' {
            assert(name.contains('/'));
        }
    }
    reveal_with_fuel(trim_tail, 4);
    // A directory before the name.
    let p = dir + seq!['/'] + name;
    assert(p[p.len() - 1] == name[n - 1]);
    assert(n > 1 ==> p[p.len() - 2] == name[n - 2]);
    assert(trim_tail(p) == p);
    lemma_after_last_is(dir, name);
    let head = p.take(p.len() - n);
    assert(head =~= dir + seq!['/']);
    assert(head.drop_last() =~= dir);
    assert(trim_tail(head) == trim_tail(dir));
    // A slash before the name.
    let r = seq!['/'] + name;
    assert(r =~= Seq::<char>::empty() + seq!['/'] + name);
    assert(r[r.len() - 1] == name[n - 1]);
    assert(n > 1 ==> r[r.len() - 2] == name[n - 2]);
    assert(trim_tail(r) == r);
    lemma_after_last_is(Seq::empty(), name);
    let root = r.take(r.len() - n);
    assert(root =~= seq!['/']);
    assert(root.drop_last() =~= Seq::<char>::empty());
    // The name alone.
    assert(trim_tail(name) == name);
    lemma_no_separator(name, '/');
    assert(name.take(0) =~= Seq::<char>::empty());
    // Slashes and dots at the end.
    let s = path + seq!['/'];
    assert(s.drop_last() =~= path);
    assert(trim_tail(s) == trim_tail(path));
    let d = path + seq!['/', '.'];
    assert(d.drop_last() =~= s);
    assert(trim_tail(d) == trim_tail(path));
    // Nothing that names a file.
    let up = dir + seq!['/', '.', '.'];
    assert(up =~= dir + seq!['/'] + seq!['.', '.']);
    assert(up[up.len() - 1] == '.' && up[up.len() - 2] == '.');
    assert(trim_tail(up) == up);
    assert(!seq!['.', '.'].contains('/'));
    lemma_after_last_is(dir, seq!['.', '.']);
    let two = seq!['.', '.'];
    assert(trim_tail(two) == two);
    lemma_no_separator(two, '/');
    let none = Seq::<char>::empty();
    assert(seq!['/'].drop_last() =~= none);
    assert(text::after_last(none, '/').len() == 0) by {
        lemma_after_last_len(none, '/');
    }
}

proof fn lemma_no_separator(s: Seq<char>, sep: char)
    requires
        forall|k: int| 0 <= k < s.len() ==> s[k] != sep,
    ensures
        text::after_last(s, sep) == s,
    decreases s.len(),
{
    if s.len() > 0 {
        let front = s.drop_last();
        assert forall|k: int| 0 <= k < front.len() implies front[k] != sep by {
            assert(front[k] == s[k]);
        }
        assert(s.last() == s[s.len() - 1]);
        lemma_no_separator(front, sep);
        assert(text::after_last(s, sep) =~= s);
    } else {
        assert(text::after_last(s, sep) =~= s);
    }
}

/// Every failure of the archive library is told with the step that failed and with
/// the library's own words.
pub proof fn archive_failures_are_told(m: String)
    ensures
        archive_message(ArchiveError::Append(m)@) == "tar append: "@ + m@,
        archive_message(ArchiveError::Finish(m)@) == "tar finalize: "@ + m@,
        archive_message(ArchiveError::Read(m)@) == "tar read: "@ + m@,
        archive_message(ArchiveError::Entry(m)@) == "tar entry: "@ + m@,
{
}

/// Reading back means that there is a file and that it has just these contents. A
/// file can have any name in an archive that is one plain component without a NUL.
pub proof fn what_reading_back_means(
    read: Result<Option<Seq<u8>>, ArchiveErrorView>,
    content: Seq<u8>,
    name: Seq<char>,
)
    ensures
        reads_back(read, content) <==> read == Ok::<Option<Seq<u8>>, ArchiveErrorView>(
            Some(content),
        ),
        plain_name(name) <==> name.len() > 0 && !name.contains('/') && !name.contains('\0') && name
            != seq!['.'] && name != seq!['.', '.'],
        FILE_MODE == 0o600 + 0o40 + 0o4,
{
    api::a_path_is_walked_from_the_home(Seq::empty(), Seq::empty(), name);
}

/// Every counter is told as Docker tells it. One that it does not tell is 0, but the
/// number of CPUs, which is 1 then.
pub proof fn counters_are_told_as_they_are(sample: StatsSample, n: u64)
    ensures
        or_zero(Some(n)) == n,
        or_zero(None) == 0,
        counters_of(sample).memory_usage_bytes == or_zero(sample.memory_usage),
        counters_of(sample).memory_limit_bytes == or_zero(sample.memory_limit),
        counters_of(sample).pids_current == or_zero(sample.pids_current),
        counters_of(sample).pids_limit == or_zero(sample.pids_limit),
        counters_of(sample).cpu is Some <==> sample.cpu is Some,
        sample.cpu is Some ==> {
            let c = counters_of(sample).cpu->0;
            &&& c.usage == or_zero(sample.cpu->0.total_usage)
            &&& c.system == or_zero(sample.cpu->0.system_usage)
            &&& sample.cpu->0.online_cpus is Some ==> c.online_cpus
                == sample.cpu->0.online_cpus->0
            &&& sample.cpu->0.online_cpus is None ==> c.online_cpus == 1
            &&& sample.precpu is Some ==> c.previous_usage == or_zero(sample.precpu->0.total_usage)
                && c.previous_system == or_zero(sample.precpu->0.system_usage)
            &&& sample.precpu is None ==> c.previous_usage == 0 && c.previous_system == 0
        },
{
}

// ---------------------------------------------------------------------------
// Laws on the operations
// ---------------------------------------------------------------------------

/// A container is made with its tier's image, memory in bytes, processes, file system
/// and temporary file systems; with its volume at the sandbox home, then the further
/// mounts in their order; in the given network; without capabilities but one and
/// without new privileges; and under the label of this runtime.
pub proof fn containers_are_made_as_their_tier_says(
    tier: &TierConfig,
    nano_cpus: i64,
    volume_name: &str,
    extra_binds: &Vec<String>,
    network: &Option<String>,
    r: ContainerSpec,
)
    requires
        call_ensures(container_spec, (tier, nano_cpus, volume_name, extra_binds, network), r),
    ensures
        r.image@ == tier.image@,
        tier.memory_mb * 1048576 <= i64::MAX ==> r.memory == tier.memory_mb * 1048576,
        r.nano_cpus == nano_cpus,
        r.pids_limit == tier.pids,
        r.readonly_rootfs == tier.readonly_rootfs,
        r.tmpfs is Some <==> tier.tmpfs is Some,
        r.tmpfs is Some ==> r.tmpfs->0@ == tier.tmpfs->0@,
        r.network_mode is Some <==> network is Some,
        r.network_mode is Some ==> r.network_mode->0@ == network->0@,
        r.binds@.len() == 1 + extra_binds@.len(),
        r.binds@[0]@ == volume_name@ + ":/home/sandbox"@,
        forall|i: int|
            0 <= i < extra_binds@.len() ==> r.binds@[i + 1]@ == (#[trigger] extra_binds@[i])@,
        r.cap_drop@.len() == 1 && r.cap_drop@[0]@ == "ALL"@,
        r.cap_add@.len() == 1 && r.cap_add@[0]@ == "NET_BIND_SERVICE"@,
        r.security_opt@.len() == 1 && r.security_opt@[0]@ == "no-new-privileges:true"@,
        r.label.0@ == "den.managed"@,
        r.label.1@ == "true"@,
{
    let binds = text::texts(r.binds@);
    assert(binds.len() == r.binds@.len());
    assert(binds[0] == r.binds@[0]@);
    assert forall|i: int| 0 <= i < extra_binds@.len() implies r.binds@[i + 1]@ == (
    #[trigger] extra_binds@[i])@ by {
        assert(binds[i + 1] == r.binds@[i + 1]@);
        assert(text::texts(extra_binds@)[i] == extra_binds@[i]@);
    }
    assert(text::texts(r.cap_drop@).len() == 1 && text::texts(r.cap_drop@)[0] == "ALL"@);
    assert(text::texts(r.cap_add@).len() == 1 && text::texts(r.cap_add@)[0]
        == "NET_BIND_SERVICE"@);
    assert(text::texts(r.security_opt@).len() == 1 && text::texts(r.security_opt@)[0]
        == "no-new-privileges:true"@);
}

/// An entry of a container's state is yes only where Docker says so.
pub proof fn flags_are_told_as_they_are(state: Option<Option<bool>>, r: bool)
    requires
        call_ensures(state_flag, (state,), r),
    ensures
        r <==> state is Some && state->0 is Some && state->0->0,
{
}

/// A container is reached at the address that it has in the wanted network; without
/// one, or with an empty one, it cannot be reached.
pub proof fn containers_are_reached_in_their_network(
    id: &str,
    nets: Vec<Attachment>,
    wanted: String,
    r: Result<String, DenError>,
    first: Result<String, DenError>,
    i: int,
)
    requires
        call_ensures(container_ip, (id, &Some(nets), &Some(wanted)), r),
        call_ensures(container_ip, (id, &Some(nets), &None::<String>), first),
        0 <= i < nets@.len(),
        nets@[i].network@ == wanted@,
        forall|k: int| 0 <= k < i ==> (#[trigger] nets@[k]).network@ != wanted@,
    ensures
        r is Ok <==> nets@[i].ip is Some && nets@[i].ip->0@.len() > 0,
        r is Ok ==> r->Ok_0@ == nets@[i].ip->0@,
        r is Err ==> r->Err_0@ == ErrorView::Proxy("no IP for container "@ + id@),
        first is Ok <==> nets@[0].ip is Some && nets@[0].ip->0@.len() > 0,
        first is Ok ==> first->Ok_0@ == nets@[0].ip->0@,
{
    where_a_container_is_reached(nets@, wanted@, i);
}

/// Where there are no networks at all, or none of the wanted name, a container cannot
/// be reached.
pub proof fn containers_without_the_network_are_not_reached(
    id: &str,
    nets: Vec<Attachment>,
    wanted: Option<String>,
    r: Result<String, DenError>,
    none: Result<String, DenError>,
)
    requires
        call_ensures(container_ip, (id, &Some(nets), &wanted), r),
        call_ensures(container_ip, (id, &None::<Vec<Attachment>>, &wanted), none),
        wanted is None ==> nets@.len() == 0,
        wanted is Some ==> forall|k: int|
            0 <= k < nets@.len() ==> (#[trigger] nets@[k]).network@ != wanted->0@,
    ensures
        r is Err,
        r->Err_0@ == ErrorView::Proxy("no IP for container "@ + id@),
        none is Err,
        none->Err_0@ == ErrorView::Proxy("no network settings for container "@ + id@),
{
    if wanted is Some {
        where_a_container_is_reached(nets@, wanted->0@, 0);
    }
}

/// What a finished command wrote is told whole: where its frames are UTF-8, the
/// standard output that is told encodes to just the bytes of its frames of standard
/// output, one after the other, and so does the standard error. The exit code is told
/// as it is.
pub proof fn collected_output_is_what_was_written(
    frames: &Vec<OutputFrame>,
    exit_code: Option<i64>,
    r: ExecResult,
)
    requires
        call_ensures(collect_output, (frames, exit_code), r),
    ensures
        (forall|i: int|
            0 <= i < frames@.len() && frames@[i] is StdOut ==> valid_utf8(
                (#[trigger] frames@[i])->StdOut_0@,
            )) ==> encode_utf8(r.stdout@) == frames@.filter_map(
            |f: OutputFrame|
                match f {
                    OutputFrame::StdOut(b) => Some(b@),
                    _ => None,
                },
        ).flatten_alt(),
        (forall|i: int|
            0 <= i < frames@.len() && frames@[i] is StdErr ==> valid_utf8(
                (#[trigger] frames@[i])->StdErr_0@,
            )) ==> encode_utf8(r.stderr@) == frames@.filter_map(
            |f: OutputFrame|
                match f {
                    OutputFrame::StdErr(b) => Some(b@),
                    _ => None,
                },
        ).flatten_alt(),
        exit_code is Some ==> r.exit_code == exit_code->0,
        exit_code is None ==> r.exit_code == -1,
{
    what_was_written_is_told(frames@);
}

/// What is packed for upload is what unpacking it gives back, for whatever path it is
/// downloaded, and is unpacked in the directory of its path. Packing fails only where the
/// path names no file or the name does not fit an archive.
pub proof fn what_is_uploaded_can_be_downloaded(
    dir: Seq<char>,
    name: Seq<char>,
    path: &str,
    content: &Vec<u8>,
    up: Result<Upload, DenError>,
    other: &str,
    down: Result<Vec<u8>, DenError>,
)
    requires
        call_ensures(pack_upload, (path, content), up),
        up is Ok ==> call_ensures(unpack_download, (other, &up->Ok_0.archive), down),
        path@ == dir + seq!['/'] + name,
        name.len() > 0,
        !name.contains('/'),
        !name.contains('\0'),
        name != seq!['.'],
        name != seq!['.', '.'],
        trim_tail(dir) == dir,
        dir.len() > 0,
    ensures
        up is Ok,
        up->Ok_0.dir@ == dir,
        down is Ok,
        down->Ok_0@ == content@,
{
    a_path_names_a_file_in_a_directory(dir, name, path@);
    what_reading_back_means(first_file(up->Ok_0.archive@), content@, name);
}

/// A file that Docker says is not there is told to be missing; any other refusal is
/// told in Docker's words.
pub proof fn refused_downloads_are_told(
    status: Option<u16>,
    message: &str,
    file_path: &str,
    r: DenError,
)
    requires
        call_ensures(download_refused, (status, message, file_path), r),
    ensures
        status is Some && status->0 == 404 ==> r@ == (ErrorView::FileNotFound {
            path: file_path@,
        }),
        status is None || status->0 != 404 ==> r@ == ErrorView::Docker(message@),
{
}

/// An archive without a file, and one that could not be read, are told as such; a file
/// in it is handed out as it is.
pub proof fn downloads_are_handed_out_as_they_are(
    file_path: &str,
    found: Result<Option<Vec<u8>>, ArchiveError>,
    r: Result<Vec<u8>, DenError>,
)
    requires
        call_ensures(download_of, (file_path, found), r),
    ensures
        r is Ok <==> found is Ok && found->Ok_0 is Some,
        r is Ok ==> r->Ok_0@ == found->Ok_0->0@,
        found is Ok && found->Ok_0 is None ==> r->Err_0@ == ErrorView::Other(
            "file not found in archive: "@ + file_path@,
        ),
        found is Err ==> r->Err_0@ == ErrorView::Other(archive_message(found->Err_0@)),
{
}

/// The counters of a container are those of its sample; without a sample there are none.
pub proof fn containers_have_the_counters_of_their_sample(
    id: &str,
    sample: &Option<StatsSample>,
    r: Result<Counters, DenError>,
)
    requires
        call_ensures(container_counters, (id, sample), r),
    ensures
        r is Ok <==> sample is Some,
        r is Err ==> r->Err_0@ == ErrorView::Other("no stats returned for container "@ + id@),
        r is Ok && sample->0.memory_usage is Some ==> r->Ok_0.memory_usage_bytes
            == sample->0.memory_usage->0,
        r is Ok && sample->0.memory_limit is Some ==> r->Ok_0.memory_limit_bytes
            == sample->0.memory_limit->0,
        r is Ok && sample->0.pids_current is Some ==> r->Ok_0.pids_current
            == sample->0.pids_current->0,
        r is Ok && sample->0.pids_limit is Some ==> r->Ok_0.pids_limit == sample->0.pids_limit->0,
{
    if sample is Some {
        counters_are_told_as_they_are(sample->0, 0);
    }
}

/// What was packed is handed on with its directory, and a failure to pack is told.
pub proof fn uploads_are_handed_on_as_they_are(
    dir: String,
    archive: Result<Vec<u8>, ArchiveError>,
    r: Result<Upload, DenError>,
)
    requires
        call_ensures(upload_of, (dir, archive), r),
    ensures
        r is Ok <==> archive is Ok,
        r is Ok ==> r->Ok_0.dir@ == dir@ && r->Ok_0.archive@ == archive->Ok_0@,
        r is Err ==> r->Err_0@ == ErrorView::Other(archive_message(archive->Err_0@)),
{
}

/// An archive whose first header is of an ordinary file is read, and its first file
/// handed out.
pub proof fn ordinary_downloads_are_read(
    file_path: &str,
    archive: &Vec<u8>,
    r: Result<Vec<u8>, DenError>,
)
    requires
        call_ensures(unpack_download, (file_path, archive), r),
        archive@.len() >= 512 ==> archive@[156] != 76 && archive@[156] != 75 && archive@[156] != 120
            && archive@[156] != 83,
    ensures
        match first_file(archive@) {
            Ok(Some(content)) => r is Ok && r->Ok_0@ == content,
            Ok(None) => r is Err && r->Err_0@ == ErrorView::Other(
                "file not found in archive: "@ + file_path@,
            ),
            Err(e) => r is Err && r->Err_0@ == ErrorView::Other(archive_message(e)),
        },
{
    tarball::ordinary_archives_are_read(archive@);
}

} // verus!
