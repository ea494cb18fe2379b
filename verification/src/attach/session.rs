//! Session files: how a player finds a running server.
//!
//! Each server writes one small file, naming the loopback port it listens on.
//! Discovery prefers a session whose root matches where you are, then falls
//! back to the only live one. Liveness is decided by *connecting*: the socket
//! is the only honest answer.

use crate::cli::paths::{extension_at, extension_start};
use crate::text::{chars_of, hex, push_hex, same, string_of};
use vstd::prelude::*;
use vstd::string::{StringExecFns, StringSliceAdditionalSpecFns};

verus! {

/// A running server, as advertised on disk.
#[derive(Debug, Clone)]
pub struct Session {
    /// Loopback port the attach listener accepts on.
    pub port: u16,
    /// Absolute working directory the console is rooted at.
    pub root: String,
    pub pid: u32,
    pub version: String,
}

/// What a [`Session`] says.
pub struct SessionModel {
    pub port: u16,
    pub root: Seq<char>,
    pub pid: u32,
    pub version: Seq<char>,
}

impl View for Session {
    type V = SessionModel;

    open spec fn view(&self) -> SessionModel {
        SessionModel {
            port: self.port,
            root: self.root@,
            pid: self.pid,
            version: self.version@,
        }
    }
}

/// What a list of sessions says.
pub open spec fn session_views(v: Seq<Session>) -> Seq<SessionModel> {
    v.map_values(|s: Session| s@)
}

/// The variables that say where session files are kept.
pub struct SessionEnv {
    /// `KESSEL_SESSION_DIR`.
    pub chosen: Option<String>,
    pub windows: bool,
    pub local_app_data: Option<String>,
    pub xdg_cache_home: Option<String>,
    pub home: Option<String>,
    /// The system's directory for temporary files.
    pub temp: String,
}

/// What a variable holds.
pub open spec fn var_view(v: Option<String>) -> Option<Seq<char>> {
    match v {
        Some(s) => Some(s@),
        None => None,
    }
}

/// What a list of path components says.
pub open spec fn part_views(v: Seq<String>) -> Seq<Seq<char>> {
    v.map_values(|s: String| s@)
}

impl SessionEnv {
    /// The components, one below the other, of the directory that holds
    /// session files. An empty override means "unset".
    pub open spec fn dir(self) -> Seq<Seq<char>> {
        if var_view(self.chosen) matches Some(d) && d.len() > 0 {
            seq![self.chosen->0@]
        } else {
            let base = if self.windows {
                if self.local_app_data is Some {
                    seq![self.local_app_data->0@]
                } else {
                    seq![self.temp@]
                }
            } else if self.xdg_cache_home is Some {
                seq![self.xdg_cache_home->0@]
            } else if self.home is Some {
                seq![self.home->0@, ".cache"@]
            } else {
                seq![self.temp@]
            };
            base + seq!["kessel"@, "sessions"@]
        }
    }
}

/// The directory that holds session files, as components to be joined. Honours
/// the override, then the platform's cache directory, then a temporary
/// directory, so discovery still works on a system with no home.
pub fn session_dir(env: &SessionEnv) -> (r: Vec<String>)
    ensures
        part_views(r@) == env.dir(),
{
    let mut r: Vec<String> = Vec::new();
    if let Some(d) = &env.chosen {
        if !d.as_str().is_empty() {
            r.push(d.clone());
            assert(part_views(r@) =~= env.dir());
            return r;
        }
    }
    if env.windows {
        match &env.local_app_data {
            Some(d) => {
                r.push(d.clone());
            },
            None => {
                r.push(env.temp.clone());
            },
        }
    } else {
        match &env.xdg_cache_home {
            Some(d) => {
                r.push(d.clone());
            },
            None => match &env.home {
                Some(d) => {
                    r.push(d.clone());
                    r.push(".cache".to_owned());
                },
                None => {
                    r.push(env.temp.clone());
                },
            },
        }
    }
    r.push("kessel".to_owned());
    r.push("sessions".to_owned());
    assert(part_views(r@) =~= env.dir());
    r
}

/// Where a 64-bit FNV-1a hash starts.
pub const FNV_OFFSET: u64 = 0xcbf2_9ce4_8422_2325;

/// What a 64-bit FNV-1a hash is multiplied by after each byte.
pub const FNV_PRIME: u64 = 0x100_0000_01b3;

/// The 64-bit FNV-1a hash of bytes.
pub open spec fn fnv1a(bytes: Seq<u8>) -> u64
    decreases bytes.len(),
{
    if bytes.len() == 0 {
        FNV_OFFSET
    } else {
        let h = fnv1a(bytes.drop_last()) ^ (bytes.last() as u64);
        ((h * FNV_PRIME) % 0x1_0000_0000_0000_0000) as u64
    }
}

/// The name of a root's session file: a short, stable, filesystem-safe key of
/// the canonical path.
pub fn root_key(canonical: &str) -> (r: String)
    ensures
        r@ == hex(fnv1a(canonical.spec_bytes()), 16),
{
    let bytes = canonical.as_bytes();
    let mut hash: u64 = FNV_OFFSET;
    let mut i: usize = 0;
    assert(bytes@.take(0) =~= Seq::empty());
    while i < bytes.len()
        invariant
            i <= bytes@.len(),
            hash == fnv1a(bytes@.take(i as int)),
        decreases bytes@.len() - i,
    {
        assert(bytes@.take(i + 1).drop_last() =~= bytes@.take(i as int));
        hash = hash ^ (bytes[i] as u64);
        hash = hash.wrapping_mul(FNV_PRIME);
        i += 1;
    }
    assert(bytes@.take(bytes@.len() as int) =~= bytes@);
    let mut s = String::new();
    push_hex(&mut s, hash, 16);
    assert(s@ =~= hex(hash, 16));
    s
}

/// Whether a file name has the extension of a session file.
pub open spec fn names_session(name: Seq<char>) -> bool {
    match extension_start(name) {
        Some(i) => name.skip(i) == "json"@,
        None => false,
    }
}

/// Whether a file in the session directory is a session file.
pub fn is_session_file(name: &str) -> (r: bool)
    ensures
        r == names_session(name@),
{
    let chars = chars_of(name);
    match extension_at(chars.as_slice()) {
        None => false,
        Some(i) => {
            let tail = vstd::slice::slice_subrange(chars.as_slice(), i, chars.len());
            assert(tail@ =~= name@.skip(i as int));
            same(string_of(tail).as_str(), "json")
        },
    }
}

impl Session {
    /// Advertise a server.
    pub fn new(root: String, port: u16, pid: u32, version: String) -> (r: Self)
        ensures
            r@ == (SessionModel { port, root: root@, pid, version: version@ }),
    {
        Session { port, root, pid, version }
    }

    /// Whether a session file still describes the server at this port and
    /// process, which may then remove it.
    ///
    /// Two servers rooted at the same directory share a filename. Without this
    /// the first one's exit would delete the *second's* live entry.
    pub fn is_owned_by(&self, port: u16, pid: u32) -> (r: bool)
        ensures
            r == (self@.port == port && self@.pid == pid),
    {
        self.port == port && self.pid == pid
    }
}

/// What discovery found.
pub enum Discovery {
    Found(Session),
    Nothing,
    /// More than one live server and no way to tell which was meant.
    Ambiguous(Vec<Session>),
}

/// What a [`Discovery`] says.
pub enum DiscoveryModel {
    Found(SessionModel),
    Nothing,
    Ambiguous(Seq<SessionModel>),
}

impl View for Discovery {
    type V = DiscoveryModel;

    open spec fn view(&self) -> DiscoveryModel {
        match *self {
            Discovery::Found(s) => DiscoveryModel::Found(s@),
            Discovery::Nothing => DiscoveryModel::Nothing,
            Discovery::Ambiguous(v) => DiscoveryModel::Ambiguous(session_views(v@)),
        }
    }
}

/// The first session rooted at a directory, from position `i` on.
pub open spec fn rooted_at(live: Seq<SessionModel>, root: Seq<char>, i: int) -> Option<int>
    decreases live.len() - i,
{
    if i < 0 || i >= live.len() {
        None
    } else if live[i].root == root {
        Some(i)
    } else {
        rooted_at(live, root, i + 1)
    }
}

pub proof fn lemma_rooted_at(live: Seq<SessionModel>, root: Seq<char>, i: int)
    requires
        0 <= i <= live.len(),
    ensures
        match rooted_at(live, root, i) {
            Some(k) => i <= k < live.len() && live[k].root == root && forall|j: int|
                i <= j < k ==> (#[trigger] live[j]).root != root,
            None => forall|j: int| i <= j < live.len() ==> (#[trigger] live[j]).root != root,
        },
    decreases live.len() - i,
{
    if i < live.len() && live[i].root != root {
        lemma_rooted_at(live, root, i + 1);
    }
}

/// The session that is meant: the one at `root` where that is given; else the
/// one at the working directory; else the only one.
pub open spec fn discovered(
    live: Seq<SessionModel>,
    root: Option<Seq<char>>,
    cwd: Option<Seq<char>>,
) -> DiscoveryModel {
    if root is Some {
        match rooted_at(live, root->0, 0) {
            Some(i) => DiscoveryModel::Found(live[i]),
            None => DiscoveryModel::Nothing,
        }
    } else if cwd is Some && rooted_at(live, cwd->0, 0) is Some {
        DiscoveryModel::Found(live[rooted_at(live, cwd->0, 0)->0])
    } else if live.len() == 0 {
        DiscoveryModel::Nothing
    } else if live.len() == 1 {
        DiscoveryModel::Found(live[0])
    } else {
        DiscoveryModel::Ambiguous(live)
    }
}

fn find_root(live: &Vec<Session>, root: &str) -> (r: Option<usize>)
    ensures
        match r {
            Some(k) => rooted_at(session_views(live@), root@, 0) == Some(k as int) && k
                < live@.len(),
            None => rooted_at(session_views(live@), root@, 0) is None,
        },
{
    let mut i: usize = 0;
    while i < live.len()
        invariant
            i <= live@.len(),
            rooted_at(session_views(live@), root@, 0) == rooted_at(
                session_views(live@),
                root@,
                i as int,
            ),
        decreases live@.len() - i,
    {
        assert(session_views(live@)[i as int].root == live@[i as int].root@);
        if same(live[i].root.as_str(), root) {
            return Some(i);
        }
        i += 1;
    }
    None
}

/// What a path that may be absent says.
pub open spec fn path_view(p: Option<&str>) -> Option<Seq<char>> {
    match p {
        Some(s) => Some(s@),
        None => None,
    }
}

/// Find the server to attach to, among those that are live. `root`, where it is
/// given, picks a specific one; `cwd` is where you are. Both are canonical
/// paths.
pub fn discover(live: Vec<Session>, root: Option<&str>, cwd: Option<&str>) -> (r: Discovery)
    ensures
        r@ == discovered(session_views(live@), path_view(root), path_view(cwd)),
{
    let ghost all = session_views(live@);
    let mut live = live;
    if let Some(root) = root {
        return match find_root(&live, root) {
            Some(i) => Discovery::Found(live.remove(i)),
            None => Discovery::Nothing,
        };
    }
    if let Some(cwd) = cwd {
        if let Some(i) = find_root(&live, cwd) {
            return Discovery::Found(live.remove(i));
        }
    }
    if live.len() == 0 {
        Discovery::Nothing
    } else if live.len() == 1 {
        Discovery::Found(live.remove(0))
    } else {
        Discovery::Ambiguous(live)
    }
}

/// The sessions whose flag is set, among the first `k`.
pub open spec fn live_among(all: Seq<SessionModel>, live: Seq<bool>, k: int) -> Seq<SessionModel>
    decreases k,
{
    if k <= 0 {
        Seq::empty()
    } else if live[k - 1] {
        live_among(all, live, k - 1).push(all[k - 1])
    } else {
        live_among(all, live, k - 1)
    }
}

/// The places of the flags that are not set, among the first `k`.
pub open spec fn stale_among(live: Seq<bool>, k: int) -> Seq<usize>
    decreases k,
{
    if k <= 0 {
        Seq::empty()
    } else if live[k - 1] {
        stale_among(live, k - 1)
    } else {
        stale_among(live, k - 1).push((k - 1) as usize)
    }
}

/// Part the sessions that answered from those that did not. The second list
/// holds the places of the stale ones, whose files are to be removed: a crashed
/// server's leftovers would otherwise shadow a real one.
pub fn part_live(sessions: Vec<Session>, live: &Vec<bool>) -> (r: (Vec<Session>, Vec<usize>))
    requires
        sessions@.len() == live@.len(),
    ensures
        session_views(r.0@) == live_among(
            session_views(sessions@),
            live@,
            sessions@.len() as int,
        ),
        r.1@ == stale_among(live@, sessions@.len() as int),
{
    let ghost all = session_views(sessions@);
    let ghost given = sessions@;
    let n: usize = sessions.len();
    let mut rest = sessions;
    let mut kept: Vec<Session> = Vec::new();
    let mut stale: Vec<usize> = Vec::new();
    let mut k: usize = 0;
    assert(given.skip(0) =~= given);
    assert(session_views(kept@) =~= live_among(all, live@, 0));
    while k < n
        invariant
            k <= n,
            n == given.len() == live@.len(),
            all == session_views(given),
            rest@ == given.skip(k as int),
            session_views(kept@) == live_among(all, live@, k as int),
            stale@ == stale_among(live@, k as int),
        decreases n - k,
    {
        let s = rest.remove(0);
        assert(s == given[k as int]);
        assert(rest@ =~= given.skip(k + 1));
        if live[k] {
            assert(session_views(kept@.push(s)) =~= session_views(kept@).push(s@));
            kept.push(s);
        } else {
            stale.push(k);
        }
        k += 1;
    }
    (kept, stale)
}

/// Asking for a root that has no server finds nothing, and never some other
/// project's session.
pub proof fn law_a_root_finds_only_its_own(
    live: Seq<SessionModel>,
    root: Seq<char>,
    cwd: Option<Seq<char>>,
)
    ensures
        discovered(live, Some(root), cwd) matches DiscoveryModel::Found(s) ==> s.root == root
            && live.contains(s),
        (forall|i: int| 0 <= i < live.len() ==> (#[trigger] live[i]).root != root)
            ==> discovered(live, Some(root), cwd) == DiscoveryModel::Nothing,
{
    lemma_rooted_at(live, root, 0);
    if let Some(i) = rooted_at(live, root, 0) {
        assert(live.contains(live[i]));
    }
}

/// Without a root, the working directory's session wins over any other.
pub proof fn law_the_working_directory_wins(live: Seq<SessionModel>, cwd: Seq<char>, i: int)
    requires
        0 <= i < live.len(),
        live[i].root == cwd,
    ensures
        discovered(live, None, Some(cwd)) matches DiscoveryModel::Found(s) && s.root == cwd,
{
    lemma_rooted_at(live, cwd, 0);
}

/// Discovery never guesses: without a root, and with none at the working
/// directory, two live sessions are ambiguous.
pub proof fn law_two_live_sessions_are_ambiguous(live: Seq<SessionModel>, cwd: Seq<char>)
    requires
        live.len() >= 2,
        forall|i: int| 0 <= i < live.len() ==> (#[trigger] live[i]).root != cwd,
    ensures
        discovered(live, None, Some(cwd)) == DiscoveryModel::Ambiguous(live),
        discovered(live, None, None) == DiscoveryModel::Ambiguous(live),
{
    lemma_rooted_at(live, cwd, 0);
}

} // verus!
