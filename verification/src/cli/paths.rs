//! Paths, as texts whose components `/` separates, and on Windows `\\` too.

use crate::text::{
    chars_of, maybe, pieces, same, split_char, split_on, string_of, strings, to_lowercase,
    lowercase, word_views,
};
use vstd::prelude::*;
use vstd::string::StringExecFns;

verus! {

/// Whether the piece at `k` of a path is a component: not what stands between
/// two separators, and not a `.` unless the path starts with it.
pub open spec fn counts(all: Seq<Seq<char>>, k: int) -> bool {
    all[k].len() > 0 && (k == 0 || all[k] != seq!['.'])
}

/// The components among the first `n` pieces.
pub open spec fn components_in(all: Seq<Seq<char>>, n: int) -> Seq<Seq<char>>
    decreases n,
{
    if n <= 0 {
        Seq::empty()
    } else if counts(all, n - 1) {
        components_in(all, n - 1).push(all[n - 1])
    } else {
        components_in(all, n - 1)
    }
}

/// A path with `/` for every separator of the platform.
pub open spec fn unified(path: Seq<char>, windows: bool) -> Seq<char> {
    if windows {
        path.map_values(
            |c: char|
                if c == '\\' {
                    '/'
                } else {
                    c
                },
        )
    } else {
        path
    }
}

fn unify(path: &str, windows: bool) -> (r: String)
    ensures
        r@ == unified(path@, windows),
{
    if !windows {
        return path.to_owned();
    }
    let chars = chars_of(path);
    let mut out: Vec<char> = Vec::new();
    let mut i: usize = 0;
    while i < chars.len()
        invariant
            i <= chars@.len(),
            chars@ == path@,
            windows,
            out@ == unified(path@, windows).take(i as int),
        decreases chars@.len() - i,
    {
        out.push(
            if chars[i] == '\\' {
                '/'
            } else {
                chars[i]
            },
        );
        i += 1;
        assert(out@ =~= unified(path@, windows).take(i as int));
    }
    assert(out@ =~= unified(path@, windows));
    string_of(out.as_slice())
}

/// Whether a path's first piece starts with a drive: a letter and a colon.
pub open spec fn has_drive(piece: Seq<char>) -> bool {
    piece.len() >= 2 && ('a' <= piece[0] <= 'z' || 'A' <= piece[0] <= 'Z') && piece[1] == ':'
}

/// Whether a path starts with a share or a device: two separators and two names.
pub open spec fn has_share(all: Seq<Seq<char>>) -> bool {
    all.len() >= 4 && all[0].len() == 0 && all[1].len() == 0 && all[2].len() > 0 && all[3].len()
        > 0
}

/// The pieces of a path between its separators. On Windows a drive, a share or
/// a device in front is none of them.
pub open spec fn path_pieces(path: Seq<char>, windows: bool) -> Seq<Seq<char>> {
    let all = split_on(unified(path, windows), '/');
    if windows && has_share(all) {
        all.skip(4).insert(0, Seq::empty())
    } else if windows && has_drive(all[0]) {
        all.update(0, all[0].skip(2))
    } else {
        all
    }
}

fn split_path(path: &str, windows: bool) -> (r: Vec<Vec<char>>)
    ensures
        word_views(r@) == path_pieces(path@, windows),
{
    let text = unify(path, windows);
    let mut all = split_char(text.as_str(), '/');
    let ghost given = all@;
    let ghost views = word_views(given);
    if !windows {
        return all;
    }
    assert(views.len() >= 1) by {
        lemma_some_piece(unified(path@, windows), '/', unified(path@, windows).len() as int);
    }
    assert(forall|k: int| 0 <= k < given.len() ==> views[k] == (#[trigger] given[k])@);
    if all.len() >= 4 && all[0].len() == 0 && all[1].len() == 0 && all[2].len() > 0
        && all[3].len() > 0 {
        all.remove(0);
        all.remove(0);
        all.remove(0);
        all.remove(0);
        all.insert(0, Vec::new());
        assert(word_views(all@) =~= views.skip(4).insert(0, Seq::empty()));
        return all;
    }
    let drive = all[0].len() >= 2 && (('a' <= all[0][0] && all[0][0] <= 'z') || ('A' <= all[0][0]
        && all[0][0] <= 'Z')) && all[0][1] == ':';
    if drive {
        let first = all.remove(0);
        let rest = vstd::slice::slice_subrange(first.as_slice(), 2, first.len());
        let kept = chars_of(string_of(rest).as_str());
        assert(kept@ =~= views[0].skip(2));
        all.insert(0, kept);
        assert(word_views(all@) =~= views.update(0, views[0].skip(2)));
    }
    all
}

proof fn lemma_some_piece(s: Seq<char>, c: char, n: int)
    ensures
        pieces(s, c, n).len() >= 1,
    decreases n,
{
    if n > 0 {
        lemma_some_piece(s, c, n - 1);
    }
}

/// The components of a path, from the top down. The root itself is none.
pub open spec fn components(path: Seq<char>, windows: bool) -> Seq<Seq<char>> {
    let all = path_pieces(path, windows);
    components_in(all, all.len() as int)
}

/// The components of a path.
pub fn path_components(path: &str, windows: bool) -> (r: Vec<Vec<char>>)
    ensures
        word_views(r@) == components(path@, windows),
{
    let mut rest = split_path(path, windows);
    let ghost given = rest@;
    let ghost all = word_views(given);
    let n: usize = rest.len();
    let mut out: Vec<Vec<char>> = Vec::new();
    let mut k: usize = 0;
    assert(given.skip(0) =~= given);
    assert(word_views(out@) =~= components_in(all, 0));
    while k < n
        invariant
            k <= n,
            n == given.len(),
            all == word_views(given),
            rest@ == given.skip(k as int),
            word_views(out@) == components_in(all, k as int),
        decreases n - k,
    {
        let piece = rest.remove(0);
        assert(piece == given[k as int]);
        assert(rest@ =~= given.skip(k + 1));
        let dot = piece.len() == 1 && piece[0] == '.';
        assert(dot == (piece@ == seq!['.'])) by {
            if dot {
                assert(piece@ =~= seq!['.']);
            }
        }
        if piece.len() > 0 && (k == 0 || !dot) {
            assert(word_views(out@.push(piece)) =~= word_views(out@).push(piece@));
            out.push(piece);
        }
        k += 1;
    }
    out
}

/// The last component, unless it only points to another place.
pub open spec fn file_name(path: Seq<char>, windows: bool) -> Option<Seq<char>> {
    let c = components(path, windows);
    if c.len() == 0 || c.last() == "."@ || c.last() == ".."@ {
        None
    } else {
        Some(c.last())
    }
}

/// The last component of a path, unless it is `.` or `..`.
pub fn file_name_of(path: &str, windows: bool) -> (r: Option<String>)
    ensures
        maybe(r) == file_name(path@, windows),
{
    let c = path_components(path, windows);
    if c.len() == 0 {
        return None;
    }
    let last = string_of(c[c.len() - 1].as_slice());
    assert(word_views(c@).last() == last@);
    if same(last.as_str(), ".") || same(last.as_str(), "..") {
        None
    } else {
        Some(last)
    }
}

/// Where the last dot of a name stands, before position `i`.
pub open spec fn last_dot(name: Seq<char>, i: int) -> Option<int>
    decreases i,
{
    if i <= 0 || i > name.len() {
        None
    } else if name[i - 1] == '.' {
        Some(i - 1)
    } else {
        last_dot(name, i - 1)
    }
}

/// Where a name's extension starts, after the dot. A dot that starts the name
/// starts no extension.
pub open spec fn extension_start(name: Seq<char>) -> Option<int> {
    match last_dot(name, name.len() as int) {
        Some(i) => if i > 0 {
            Some(i + 1)
        } else {
            None
        },
        None => None,
    }
}

/// Where a name's extension starts, after the dot.
pub fn extension_at(name: &[char]) -> (r: Option<usize>)
    ensures
        match r {
            Some(i) => extension_start(name@) == Some(i as int) && 1 < i <= name@.len(),
            None => extension_start(name@) is None,
        },
{
    let mut i: usize = name.len();
    while i > 0 && name[i - 1] != '.'
        invariant
            i <= name@.len(),
            last_dot(name@, i as int) == last_dot(name@, name@.len() as int),
        decreases i,
    {
        i -= 1;
    }
    if i > 1 {
        Some(i)
    } else {
        None
    }
}

/// A file's name without its extension.
pub open spec fn stem(name: Seq<char>) -> Seq<char> {
    match extension_start(name) {
        Some(i) => name.take(i - 1),
        None => name,
    }
}

/// The name of the file at the end of a path, without its extension.
pub fn file_stem_of(path: &str, windows: bool) -> (r: Option<String>)
    ensures
        maybe(r) == (match file_name(path@, windows) {
            Some(n) => Some(stem(n)),
            None => None,
        }),
{
    match file_name_of(path, windows) {
        None => None,
        Some(name) => {
            let chars = chars_of(name.as_str());
            match extension_at(chars.as_slice()) {
                Some(i) => {
                    let part = vstd::slice::slice_subrange(chars.as_slice(), 0, i - 1);
                    assert(part@ =~= stem(name@));
                    Some(string_of(part))
                },
                None => Some(name),
            }
        },
    }
}

/// Whether a component has the extension of a macOS application.
pub open spec fn is_bundle(component: Seq<char>) -> bool {
    match extension_start(component) {
        Some(i) => lowercase(component.skip(i)) == "app"@,
        None => false,
    }
}

fn names_bundle(component: &Vec<char>) -> (r: bool)
    ensures
        r == is_bundle(component@),
{
    match extension_at(component.as_slice()) {
        None => false,
        Some(i) => {
            let tail = vstd::slice::slice_subrange(component.as_slice(), i, component.len());
            assert(tail@ =~= component@.skip(i as int));
            let ext = to_lowercase(string_of(tail).as_str());
            same(ext.as_str(), "app")
        },
    }
}

/// A directory someone chose: not the filesystem's root, and not inside an
/// application's bundle.
pub open spec fn plausible_workspace(dir: Seq<char>, windows: bool) -> bool {
    &&& components(dir, windows).len() > 0
    &&& forall|k: int|
        0 <= k < components(dir, windows).len() ==> !is_bundle(
            #[trigger] components(dir, windows)[k],
        )
}

/// A working directory worth working in.
pub fn is_plausible_workspace(dir: &str, windows: bool) -> (r: bool)
    ensures
        r == plausible_workspace(dir@, windows),
{
    let c = path_components(dir, windows);
    if c.len() == 0 {
        return false;
    }
    let mut k: usize = 0;
    while k < c.len()
        invariant
            k <= c@.len(),
            word_views(c@) == components(dir@, windows),
            forall|j: int| 0 <= j < k ==> !is_bundle(#[trigger] components(dir@, windows)[j]),
        decreases c@.len() - k,
    {
        assert(components(dir@, windows)[k as int] == c@[k as int]@);
        if names_bundle(&c[k]) {
            return false;
        }
        k += 1;
    }
    true
}

/// The fallback workspace, as components to be joined.
pub open spec fn base(home: Option<Seq<char>>, has_documents: bool, temp: Seq<char>) -> Seq<
    Seq<char>,
> {
    match home {
        Some(h) => if has_documents {
            seq![h, "Documents"@, "Kessel"@]
        } else {
            seq![h, "Kessel"@]
        },
        None => seq![temp, "kessel"@],
    }
}

/// The fallback workspace: `~/Documents/Kessel` when a `Documents` exists, else
/// `~/Kessel`, else a temporary directory on a system with no home at all. The
/// result is a list of components to be joined.
pub fn base_dir(home: Option<String>, has_documents: bool, temp: &str) -> (r: Vec<String>)
    ensures
        strings(r@) == base(maybe(home), has_documents, temp@),
{
    let mut r: Vec<String> = Vec::new();
    let ghost goal = base(maybe(home), has_documents, temp@);
    match home {
        Some(h) => {
            r.push(h);
            if has_documents {
                r.push("Documents".to_owned());
            }
            r.push("Kessel".to_owned());
        },
        None => {
            r.push(temp.to_owned());
            r.push("kessel".to_owned());
        },
    }
    assert(strings(r@) =~= goal);
    r
}

/// Where the server works when nothing says otherwise, as components to be
/// joined: in the working directory where someone chose it, else in the
/// fallback.
pub fn default_root(
    cwd: Option<String>,
    home: Option<String>,
    has_documents: bool,
    temp: &str,
    windows: bool,
) -> (r: Vec<String>)
    ensures
        strings(r@) == (if cwd is Some && plausible_workspace(cwd->0@, windows) {
            seq![cwd->0@]
        } else {
            base(maybe(home), has_documents, temp@)
        }),
{
    if let Some(dir) = cwd {
        if is_plausible_workspace(dir.as_str(), windows) {
            let mut r: Vec<String> = Vec::new();
            let ghost d = dir@;
            r.push(dir);
            assert(strings(r@) =~= seq![d]);
            return r;
        }
    }
    base_dir(home, has_documents, temp)
}

/// A variable's value as a path. Empty means unset: an exported-but-empty
/// variable would otherwise resolve to the relative path "".
pub fn env_dir(value: Option<String>) -> (r: Option<String>)
    ensures
        maybe(r) == (match maybe(value) {
            Some(v) => if v.len() > 0 {
                Some(v)
            } else {
                None
            },
            None => None,
        }),
{
    match value {
        Some(v) => if v.as_str().is_empty() {
            None
        } else {
            Some(v)
        },
        None => None,
    }
}

/// The directories the workspace may be moved into by naming an absolute path:
/// the configured root and the user's home, and nothing wider.
pub fn adoptable_roots(root: &str, home: Option<String>) -> (r: Vec<String>)
    ensures
        strings(r@) == (match maybe(home) {
            Some(h) => seq![root@, h],
            None => seq![root@],
        }),
{
    let ghost goal = match maybe(home) {
        Some(h) => seq![root@, h],
        None => seq![root@],
    };
    let mut dirs: Vec<String> = Vec::new();
    dirs.push(root.to_owned());
    if let Some(h) = home {
        dirs.push(h);
    }
    assert(strings(dirs@) =~= goal);
    dirs
}

/// A working directory at the filesystem's root, or inside an application, is
/// never the workspace.
pub proof fn law_a_desktop_apps_directory_is_no_workspace(dir: Seq<char>, windows: bool, k: int)
    requires
        components(dir, windows).len() == 0 || (0 <= k < components(dir, windows).len() && is_bundle(
            components(dir, windows)[k],
        )),
    ensures
        !plausible_workspace(dir, windows),
{
}

} // verus!
