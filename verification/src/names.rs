//! The names of state directories: readable, unique to a workspace and environment, and short
//! enough for the sockets that are bound under them.

use crate::digest::{hex_upto, lemma_hex_len, sha256, sha256_of, to_hex};
use crate::path::{joined_path, lossy_text, name_of, parent_of, HostPath};
use crate::text::{
    alnum, cat3, cat4, cat6, chars_of, decimal, error, is_alnum, outcome, same, text_between, to_decimal, Error,
};
use vstd::prelude::*;
use vstd::utf8::{encode_scalar, encode_utf8, encode_utf8_decode_utf8, is_ascii_chars, is_ascii_chars_encode_utf8};

verus! {

/// The longest path a unix socket can be bound at.
pub const SUN_PATH_MAX: usize = 107;

/// The longest path of a state directory: what the longest socket name under it,
/// `/vsock.sock_65535`, leaves of [`SUN_PATH_MAX`].
pub const STATE_DIR_MAX: usize = 90;

/// Maximum workspace basename bytes in a directory name, subject to available room.
pub const READABLE_MAX: usize = 64;

/// Maximum `[dev.tasks.<name>]` bytes in an ephemeral run's directory name.
pub const TASK_NAME_MAX: usize = 32;

/// How many bytes a text takes.
pub open spec fn byte_len(s: Seq<char>) -> nat {
    encode_utf8(s).len()
}

/// Text after text is encoded byte after byte.
pub proof fn lemma_encode_concat(a: Seq<char>, b: Seq<char>)
    ensures
        encode_utf8(a + b) == encode_utf8(a) + encode_utf8(b),
    decreases a.len(),
{
    if a.len() == 0 {
        assert(a + b =~= b);
        assert(encode_utf8(a) + encode_utf8(b) =~= encode_utf8(b));
    } else {
        lemma_encode_concat(a.drop_first(), b);
        assert((a + b).drop_first() =~= a.drop_first() + b);
        assert((a + b)[0] == a[0]);
        assert(encode_scalar(a[0] as u32) + (encode_utf8(a.drop_first()) + encode_utf8(b)) =~= encode_scalar(
            a[0] as u32,
        ) + encode_utf8(a.drop_first()) + encode_utf8(b));
    }
}

/// ASCII text takes a byte per character.
pub proof fn lemma_ascii_len(s: Seq<char>)
    requires
        is_ascii_chars(s),
    ensures
        byte_len(s) == s.len(),
{
    is_ascii_chars_encode_utf8(s);
}

fn byte_count(s: &str) -> (r: usize)
    ensures
        r == byte_len(s@),
{
    s.as_bytes().len()
}

/// State directory name components: workspace, environment, and their digest.
#[derive(Debug)]
pub struct NameParts {
    /// the workspace's basename, everything but `[A-Za-z0-9.-]` turned into `-`
    pub readable: String,
    /// `-<environment>`, empty for `dev`
    pub suffix: String,
    /// sixteen hex digits of the digest of the canonical workspace, NUL, environment
    pub slug: String,
}

pub struct NamePartsView {
    pub readable: Seq<char>,
    pub suffix: Seq<char>,
    pub slug: Seq<char>,
}

impl DeepView for NameParts {
    type V = NamePartsView;

    open spec fn deep_view(&self) -> NamePartsView {
        NamePartsView { readable: self.readable@, suffix: self.suffix@, slug: self.slug@ }
    }
}

impl NamePartsView {
    /// The parts are as they are made: a readable name of ASCII, not empty and not too long,
    /// and sixteen digits.
    pub open spec fn wf(self) -> bool {
        &&& is_ascii_chars(self.readable)
        &&& 1 <= self.readable.len() <= READABLE_MAX
        &&& is_ascii_chars(self.slug)
        &&& self.slug.len() == 16
    }
}

/// One byte of a workspace's name as it stands in a directory name.
pub open spec fn readable_char(b: u8) -> char {
    let c = b as char;
    if c == '.' || c == '-' || is_alnum(c) {
        c
    } else {
        '-'
    }
}

/// The workspace's own name, or `workspace` where it has none.
pub open spec fn base_name(workspace: Seq<u8>) -> Seq<u8> {
    match name_of(workspace) {
        Some(n) => if n.len() > 0 {
            n
        } else {
            encode_utf8("workspace"@)
        },
        None => encode_utf8("workspace"@),
    }
}

/// The workspace's name, one ASCII character per byte.
pub open spec fn readable_name(workspace: Seq<u8>) -> Seq<char> {
    let n = base_name(workspace);
    let len = if n.len() < READABLE_MAX {
        n.len()
    } else {
        READABLE_MAX as nat
    };
    Seq::new(len, |i: int| readable_char(n[i]))
}

/// What tells the environments of a workspace apart.
pub open spec fn environment_suffix(environment: Seq<char>) -> Seq<char> {
    if environment == "dev"@ {
        Seq::empty()
    } else {
        "-"@ + environment
    }
}

/// The bytes that identify an environment: the workspace, NUL, the environment's name.
pub open spec fn identity_bytes(workspace: Seq<u8>, environment: Seq<char>) -> Seq<u8> {
    workspace.push(0u8) + encode_utf8(environment)
}

/// The parts of a name, given the digest of what identifies the environment.
pub open spec fn parts_of(workspace: Seq<u8>, environment: Seq<char>, digest: Seq<u8>) -> NamePartsView {
    NamePartsView {
        readable: readable_name(workspace),
        suffix: environment_suffix(environment),
        slug: hex_upto(digest, 8),
    }
}

fn fold_name(n: &Vec<u8>) -> (r: String)
    requires
        n@.len() > 0,
    ensures
        r@ == Seq::new(
            if n@.len() < READABLE_MAX {
                n@.len()
            } else {
                READABLE_MAX as nat
            },
            |i: int| readable_char(n@[i]),
        ),
{
    let mut out = String::new();
    let mut i: usize = 0;
    while i < n.len() && i < READABLE_MAX
        invariant
            i <= n@.len(),
            i <= READABLE_MAX,
            out@ == Seq::new(i as nat, |j: int| readable_char(n@[j])),
        decreases n@.len() - i,
    {
        let c = n[i] as char;
        if c == '.' || c == '-' || alnum(c) {
            out.push(c);
        } else {
            out.push('-');
        }
        i = i + 1;
        assert(out@ =~= Seq::new(i as nat, |j: int| readable_char(n@[j])));
    }
    out
}

/// What a directory with no room says.
pub open spec fn no_room_text(base: Seq<u8>) -> Seq<char> {
    lossy_text(base)
        + " leaves no room for a VM's own state directory: its sockets are bound under that directory and a unix socket path holds at most "@
        + decimal(SUN_PATH_MAX as nat) + " bytes. Point XDG_STATE_HOME at a shorter path."@
}

pub fn no_room(base: &HostPath) -> (r: Error)
    ensures
        r.deep_view() == no_room_text(base.deep_view()),
{
    error(
        cat4(
            base.display().as_str(),
            " leaves no room for a VM's own state directory: its sockets are bound under that directory and a unix socket path holds at most ",
            to_decimal(SUN_PATH_MAX as u64).as_str(),
            " bytes. Point XDG_STATE_HOME at a shorter path.",
        ),
    )
}

/// How many bytes a name under `base` may have, where it may have any.
pub open spec fn room_under(base: Seq<u8>) -> int {
    STATE_DIR_MAX - (base.len() + 1)
}

/// Directory name budget: [`STATE_DIR_MAX`] minus `base` and its separator.
pub fn state_dir_room(base: &HostPath) -> (r: Result<usize, Error>)
    ensures
        match r {
            Ok(n) => n == room_under(base.deep_view()) && n >= 1,
            Err(e) => room_under(base.deep_view()) < 1 && e.deep_view() == no_room_text(base.deep_view()),
        },
{
    let n: usize = base.bytes.len();
    if n >= STATE_DIR_MAX - 1 {
        return Err(no_room(base));
    }
    Ok(STATE_DIR_MAX - n - 1)
}

/// The environment's directory name: `{readable}{suffix}-{slug}`, the workspace's name cut to
/// what `base` leaves.
pub open spec fn environment_name(p: NamePartsView, base: Seq<u8>) -> Result<Seq<char>, Seq<char>> {
    let fits = room_under(base) - (byte_len(p.suffix) + 1 + byte_len(p.slug));
    if fits < 1 {
        Err(no_room_text(base))
    } else {
        let n = if fits < p.readable.len() {
            fits
        } else {
            p.readable.len() as int
        };
        Ok(p.readable.take(n) + p.suffix + "-"@ + p.slug)
    }
}

/// How many bytes a task's directory leaves for the two names.
pub open spec fn task_room(p: NamePartsView, base: Seq<u8>, token: Seq<char>) -> int {
    room_under(base) - (byte_len(p.suffix) + 6 + 1 + byte_len(token))
}

pub open spec fn least(a: int, b: int) -> int {
    if a <= b {
        a
    } else {
        b
    }
}

pub open spec fn most(a: int, b: int) -> int {
    if a >= b {
        a
    } else {
        b
    }
}

/// How much of the workspace's name a task's directory keeps: all of it where both names fit,
/// else what the task's name leaves, and at least one byte.
pub open spec fn readable_kept(p: NamePartsView, name: Seq<char>, avail: int) -> int {
    let task = least(name.len() as int, TASK_NAME_MAX as int);
    if p.readable.len() + task > avail {
        most(least(p.readable.len() as int, most(avail - task, 0)), 1)
    } else {
        p.readable.len() as int
    }
}

/// How much of the task's name its directory keeps.
pub open spec fn task_kept(p: NamePartsView, name: Seq<char>, avail: int) -> int {
    let task = least(name.len() as int, TASK_NAME_MAX as int);
    if p.readable.len() + task > avail {
        least(task, avail - readable_kept(p, name, avail))
    } else {
        task
    }
}

/// A task's directory name: `{readable}{suffix}-task-{name}-{token}`, the workspace's name
/// given up before the task's.
pub open spec fn task_dir_name(p: NamePartsView, base: Seq<u8>, name: Seq<char>, token: Seq<char>) -> Result<
    Seq<char>,
    Seq<char>,
> {
    let avail = task_room(p, base, token);
    if room_under(base) < 1 || avail < 2 {
        Err(no_room_text(base))
    } else {
        Ok(
            p.readable.take(readable_kept(p, name, avail)) + p.suffix + "-task-"@ + name.take(
                task_kept(p, name, avail),
            ) + "-"@ + token,
        )
    }
}

fn first_of(s: &str, n: usize) -> (r: String)
    requires
        n <= s@.len(),
    ensures
        r@ == s@.take(n as int),
{
    let v = chars_of(s);
    let r = text_between(&v, 0, n);
    assert(r@ =~= s@.take(n as int));
    r
}

impl NameParts {
    /// The parts of the name of an environment's directory, given the digest of what
    /// identifies it.
    pub fn of_digest(workspace: &HostPath, environment: &str, digest: &Vec<u8>) -> (r: NameParts)
        requires
            digest@.len() >= 8,
        ensures
            r.deep_view() == parts_of(workspace.deep_view(), environment@, digest@),
            r.deep_view().wf(),
    {
        proof {
            reveal_strlit("workspace");
            assert(is_ascii_chars("workspace"@));
            is_ascii_chars_encode_utf8("workspace"@);
        }
        let name = match workspace.file_name() {
            Some(n) => if n.len() > 0 {
                n
            } else {
                "workspace".as_bytes_vec()
            },
            None => "workspace".as_bytes_vec(),
        };
        assert(name@ == base_name(workspace.deep_view()));
        let readable = fold_name(&name);
        let suffix = if same(environment, "dev") {
            String::new()
        } else {
            crate::text::cat2("-", environment)
        };
        let mut head: Vec<u8> = Vec::new();
        let mut i: usize = 0;
        while i < 8
            invariant
                i <= 8,
                digest@.len() >= 8,
                head@ == digest@.take(i as int),
            decreases 8 - i,
        {
            head.push(digest[i]);
            i = i + 1;
            assert(head@ =~= digest@.take(i as int));
        }
        let slug = to_hex(&head);
        proof {
            lemma_hex_take(digest@, 8, 8);
            lemma_hex_len(digest@, 8);
            lemma_hex_ascii(digest@, 8);
            assert(readable@ =~= readable_name(workspace.deep_view()));
        }
        NameParts { readable, suffix, slug }
    }

    /// The parts of the name of an environment's directory.
    pub fn of(workspace: &HostPath, environment: &str) -> (r: NameParts)
        ensures
            r.deep_view() == parts_of(
                workspace.deep_view(),
                environment@,
                sha256_of(identity_bytes(workspace.deep_view(), environment@)),
            ),
            r.deep_view().wf(),
    {
        let mut bytes = crate::path::copy_bytes(&workspace.bytes);
        bytes.push(0);
        let env = environment.as_bytes_vec();
        crate::path::append_bytes(&mut bytes, &env);
        let digest = sha256(bytes.as_slice());
        NameParts::of_digest(workspace, environment, &digest)
    }

    /// `{readable}{suffix}-{slug}`, with the workspace name truncated to fit under `base`.
    pub fn environment_dir(&self, base: &HostPath) -> (r: Result<String, Error>)
        requires
            self.deep_view().wf(),
        ensures
            outcome(r) == environment_name(self.deep_view(), base.deep_view()),
    {
        let room: usize = state_dir_room(base)?;
        let suffix: usize = byte_count(self.suffix.as_str());
        let slug: usize = byte_count(self.slug.as_str());
        if suffix >= room || slug >= room || suffix + 1 + slug >= room {
            return Err(no_room(base));
        }
        let fits: usize = room - (suffix + 1 + slug);
        let have: usize = self.readable.as_str().unicode_len();
        let kept: usize = if fits < have {
            fits
        } else {
            have
        };
        let readable = first_of(self.readable.as_str(), kept);
        Ok(cat4(readable.as_str(), self.suffix.as_str(), "-", self.slug.as_str()))
    }

    /// `{readable}{suffix}-task-{name}-{token}`, the workspace name given up before the task
    /// name: the environment's own directory sits beside this one and still spells the
    /// workspace out. `name` is cut byte by byte, so it is ASCII.
    pub fn task_dir(&self, base: &HostPath, name: &str, token: &str) -> (r: Result<String, Error>)
        requires
            self.deep_view().wf(),
            is_ascii_chars(name@),
        ensures
            outcome(r) == task_dir_name(self.deep_view(), base.deep_view(), name@, token@),
    {
        let room: usize = state_dir_room(base)?;
        let suffix: usize = byte_count(self.suffix.as_str());
        let tail: usize = byte_count(token);
        if suffix >= room || tail >= room || suffix + 7 + tail + 2 > room {
            return Err(no_room(base));
        }
        let avail: usize = room - (suffix + 7 + tail);
        let mut readable: usize = self.readable.as_str().unicode_len();
        let named: usize = name.unicode_len();
        let mut task: usize = if named <= TASK_NAME_MAX {
            named
        } else {
            TASK_NAME_MAX
        };
        if readable + task > avail {
            let left: usize = if avail >= task {
                avail - task
            } else {
                0
            };
            if left < readable {
                readable = left;
            }
            if readable < 1 {
                readable = 1;
            }
            if avail - readable < task {
                task = avail - readable;
            }
        }
        let head = first_of(self.readable.as_str(), readable);
        let kept = first_of(name, task);
        Ok(cat6(head.as_str(), self.suffix.as_str(), "-task-", kept.as_str(), "-", token))
    }
}

proof fn lemma_hex_take(b: Seq<u8>, n: int, k: int)
    requires
        0 <= k <= n <= b.len(),
    ensures
        hex_upto(b.take(n), k) == hex_upto(b, k),
    decreases k,
{
    if k > 0 {
        lemma_hex_take(b, n, k - 1);
    }
}

proof fn lemma_hex_ascii(b: Seq<u8>, n: int)
    requires
        0 <= n <= b.len(),
    ensures
        is_ascii_chars(hex_upto(b, n)),
    decreases n,
{
    if n > 0 {
        lemma_hex_ascii(b, n - 1);
        let a = b[n - 1] / 16;
        let c = b[n - 1] % 16;
        assert(a < 16 && c < 16);
        let h = hex_upto(b, n);
        let g = hex_upto(b, n - 1);
        assert forall|i: int| 0 <= i < h.len() implies '\0' <= #[trigger] h[i] <= '\u{7f}' by {
            if i < g.len() {
                assert(h[i] == g[i]);
            }
        }
    }
}

/// Where environment state is kept: `$XDG_STATE_HOME/virtkit/dev`, else
/// `~/.local/state/virtkit/dev`.
pub open spec fn state_base(state_home: Option<Seq<u8>>, home: Option<Seq<u8>>) -> Result<Seq<u8>, Seq<char>> {
    if state_home is Some && state_home->0.len() > 0 {
        if state_home->0[0] != crate::path::SLASH {
            Err("XDG_STATE_HOME "@ + lossy_text(state_home->0) + " is not an absolute path"@)
        } else {
            Ok(joined_path(state_home->0, encode_utf8("virtkit/dev"@)))
        }
    } else if home is Some && home->0.len() > 0 {
        Ok(joined_path(home->0, encode_utf8(".local/state/virtkit/dev"@)))
    } else {
        Err("neither XDG_STATE_HOME nor HOME is set, so there is nowhere to keep VM state"@)
    }
}

/// Where environment state is kept, given `XDG_STATE_HOME` and `HOME`. State home, not the data
/// or cache base: these directories hold a live VM's sockets, keys and logs.
pub fn dev_state_base(state_home: &Option<HostPath>, home: &Option<HostPath>) -> (r: Result<HostPath, Error>)
    ensures
        outcome(r) == state_base(state_home.deep_view(), home.deep_view()),
{
    if let Some(dir) = state_home {
        if dir.bytes.len() > 0 {
            if !dir.is_absolute() {
                return Err(
                    error(cat3("XDG_STATE_HOME ", dir.display().as_str(), " is not an absolute path")),
                );
            }
            return Ok(dir.join_text("virtkit/dev"));
        }
    }
    if let Some(dir) = home {
        if dir.bytes.len() > 0 {
            return Ok(dir.join_text(".local/state/virtkit/dev"));
        }
    }
    Err(
        error(
            "neither XDG_STATE_HOME nor HOME is set, so there is nowhere to keep VM state".to_owned(),
        ),
    )
}

/// The state directory an environment gets under `base`.
pub open spec fn state_dir_under(base: Seq<u8>, workspace: Seq<u8>, environment: Seq<char>) -> Result<
    Seq<u8>,
    Seq<char>,
> {
    let digest = sha256_of(identity_bytes(workspace, environment));
    match environment_name(parts_of(workspace, environment, digest), base) {
        Ok(n) => Ok(joined_path(base, encode_utf8(n))),
        Err(e) => Err(e),
    }
}

/// The state directory an environment gets: a readable name plus a digest of what identifies
/// it, the canonical workspace path and the environment name, so that two worktrees of one
/// repository, and two environments of one workspace, never share a VM.
pub fn derived_state_dir(base: &HostPath, workspace: &HostPath, environment: &str) -> (r: Result<HostPath, Error>)
    ensures
        outcome(r) == state_dir_under(base.deep_view(), workspace.deep_view(), environment@),
{
    let name = NameParts::of(workspace, environment).environment_dir(base)?;
    Ok(base.join_text(name.as_str()))
}

/// A task's name as a directory name can carry it.
pub open spec fn folded_task(name: Seq<char>) -> Seq<char> {
    Seq::new(
        name.len(),
        |i: int|
            if is_alnum(name[i]) {
                name[i]
            } else {
                '-'
            },
    )
}

fn fold_task(name: &str) -> (r: String)
    ensures
        r@ == folded_task(name@),
        is_ascii_chars(r@),
{
    let v = chars_of(name);
    let mut out = String::new();
    let mut i: usize = 0;
    while i < v.len()
        invariant
            i <= v@.len(),
            v@ == name@,
            out@ == folded_task(name@).take(i as int),
        decreases v@.len() - i,
    {
        if alnum(v[i]) {
            out.push(v[i]);
        } else {
            out.push('-');
        }
        assert(out@ =~= folded_task(name@).take(i + 1));
        i = i + 1;
    }
    assert(out@ =~= folded_task(name@));
    out
}

/// Name of an ephemeral task's state directory, beside the environment's directory.
pub open spec fn task_state_name(
    state_dir: Seq<u8>,
    workspace: Seq<u8>,
    environment: Seq<char>,
    task: Seq<char>,
    token: Seq<char>,
) -> Result<Seq<char>, Seq<char>> {
    match parent_of(state_dir) {
        None => Err(lossy_text(state_dir) + " has no parent directory"@),
        Some(base) => task_dir_name(
            parts_of(workspace, environment, sha256_of(identity_bytes(workspace, environment))),
            base,
            folded_task(task),
            token,
        ),
    }
}

pub fn task_state_dir_name(
    state_dir: &HostPath,
    workspace: &HostPath,
    environment: &str,
    task: &str,
    token: &str,
) -> (r: Result<String, Error>)
    ensures
        outcome(r) == task_state_name(
            state_dir.deep_view(),
            workspace.deep_view(),
            environment@,
            task@,
            token@,
        ),
{
    match state_dir.parent() {
        None => Err(error(crate::text::cat2(state_dir.display().as_str(), " has no parent directory"))),
        Some(base) => {
            let name = fold_task(task);
            NameParts::of(workspace, environment).task_dir(&base, name.as_str(), token)
        },
    }
}

/// An environment's directory leaves room for every socket bound under it, and its name keeps
/// the environment and the digest whole.
pub proof fn law_environment_dir_fits(p: NamePartsView, base: Seq<u8>)
    requires
        p.wf(),
        environment_name(p, base) is Ok,
    ensures
        base.len() + 1 + byte_len(environment_name(p, base)->Ok_0) <= STATE_DIR_MAX,
        crate::text::ends(environment_name(p, base)->Ok_0, p.suffix + "-"@ + p.slug),
{
    reveal_strlit("-");
    let fits = room_under(base) - (byte_len(p.suffix) + 1 + byte_len(p.slug));
    let n = least(fits, p.readable.len() as int);
    let head = p.readable.take(n);
    let r = environment_name(p, base)->Ok_0;
    assert(r == head + p.suffix + "-"@ + p.slug);
    assert(is_ascii_chars(head));
    lemma_ascii_len(head);
    assert(is_ascii_chars("-"@));
    lemma_ascii_len("-"@);
    lemma_encode_concat(head, p.suffix);
    lemma_encode_concat(head + p.suffix, "-"@);
    lemma_encode_concat(head + p.suffix + "-"@, p.slug);
    let tail = p.suffix + "-"@ + p.slug;
    assert(r.skip(r.len() - tail.len()) =~= tail);
}

/// A task's directory leaves room for every socket bound under it, and keeps at least one byte
/// of the workspace's name and all of the token.
pub proof fn law_task_dir_fits(p: NamePartsView, base: Seq<u8>, name: Seq<char>, token: Seq<char>)
    requires
        p.wf(),
        is_ascii_chars(name),
        task_dir_name(p, base, name, token) is Ok,
    ensures
        base.len() + 1 + byte_len(task_dir_name(p, base, name, token)->Ok_0) <= STATE_DIR_MAX,
        readable_kept(p, name, task_room(p, base, token)) >= 1,
        name.len() > 0 ==> task_kept(p, name, task_room(p, base, token)) >= 1,
        crate::text::ends(task_dir_name(p, base, name, token)->Ok_0, "-"@ + token),
{
    reveal_strlit("-");
    reveal_strlit("-task-");
    let avail = task_room(p, base, token);
    let a = p.readable.take(readable_kept(p, name, avail));
    let b = name.take(task_kept(p, name, avail));
    assert(is_ascii_chars(a));
    assert(is_ascii_chars(b));
    assert(is_ascii_chars("-"@));
    assert(is_ascii_chars("-task-"@));
    lemma_ascii_len(a);
    lemma_ascii_len(b);
    lemma_ascii_len("-"@);
    lemma_ascii_len("-task-"@);
    lemma_encode_concat(a, p.suffix);
    lemma_encode_concat(a + p.suffix, "-task-"@);
    lemma_encode_concat(a + p.suffix + "-task-"@, b);
    lemma_encode_concat(a + p.suffix + "-task-"@ + b, "-"@);
    lemma_encode_concat(a + p.suffix + "-task-"@ + b + "-"@, token);
    let r = task_dir_name(p, base, name, token)->Ok_0;
    let tail = "-"@ + token;
    assert(r.skip(r.len() - tail.len()) =~= tail);
}

/// A task's name is given up only after the workspace's: where any of it is cut below the
/// limit on task names, one byte of the workspace's name is left.
pub proof fn law_workspace_name_goes_first(p: NamePartsView, name: Seq<char>, avail: int)
    requires
        p.wf(),
        avail >= 2,
        task_kept(p, name, avail) < least(name.len() as int, TASK_NAME_MAX as int),
    ensures
        readable_kept(p, name, avail) == 1,
{
}

/// What identifies an environment is told apart by the bytes that are digested: a path holds
/// no NUL, so two environments with the same bytes are the same.
pub proof fn law_identity_told_apart(w1: Seq<u8>, e1: Seq<char>, w2: Seq<u8>, e2: Seq<char>)
    requires
        !w1.contains(0u8),
        !w2.contains(0u8),
        identity_bytes(w1, e1) == identity_bytes(w2, e2),
    ensures
        w1 == w2,
        e1 == e2,
{
    let a = identity_bytes(w1, e1);
    let b = identity_bytes(w2, e2);
    assert(a[w1.len() as int] == 0 && b[w2.len() as int] == 0);
    if w1.len() < w2.len() {
        assert(b[w1.len() as int] == w2[w1.len() as int]);
        assert(w2.contains(w2[w1.len() as int]));
    }
    if w2.len() < w1.len() {
        assert(a[w2.len() as int] == w1[w2.len() as int]);
        assert(w1.contains(w1[w2.len() as int]));
    }
    assert forall|i: int| 0 <= i < w1.len() implies w1[i] == w2[i] by {
        assert(a[i] == w1[i] && b[i] == w2[i]);
    }
    assert(w1 =~= w2);
    assert(a.skip(w1.len() as int + 1) =~= encode_utf8(e1));
    assert(b.skip(w2.len() as int + 1) =~= encode_utf8(e2));
    encode_utf8_decode_utf8(e1);
    encode_utf8_decode_utf8(e2);
}

} // verus!
