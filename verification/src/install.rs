//! Where to install, and which paths of a manifest may be touched.

use crate::manifest::Os;
use crate::paths::{self, Component, InstallPath, Part};
use crate::text::{self, chars_of, find_chars, has_char, same, split, without_end};
use vstd::prelude::*;
use vstd::string::*;

verus! {

/// The lower-case form of a character, as far as it is an ASCII letter. Besides A to Z only the
/// Kelvin sign has one; every other character stays as it is.
pub open spec fn folded_char(c: char) -> char {
    if 'A' <= c <= 'Z' {
        ((c as u32) + 32) as char
    } else if c == '\u{212a}' {
        'k'
    } else {
        c
    }
}

/// Text with its characters folded.
pub open spec fn folded(s: Seq<char>) -> Seq<char> {
    s.map_values(|c: char| folded_char(c))
}

fn fold_char(c: char) -> (r: char)
    ensures
        r == folded_char(c),
{
    if 'A' <= c && c <= 'Z' {
        ((c as u8) + 32) as char
    } else if c == '\u{212a}' {
        'k'
    } else {
        c
    }
}

/// The characters of `s`, folded and with forward slashes in place of backslashes.
fn normal_chars(s: &str) -> (r: Vec<char>)
    ensures
        r@ == text::replaced(folded(s@), '\\', '/'),
{
    let v = chars_of(s);
    let mut r: Vec<char> = Vec::new();
    let mut i: usize = 0;
    while i < v.len()
        invariant
            i <= v.len(),
            v@ == s@,
            r@ == text::replaced(folded(s@.take(i as int)), '\\', '/'),
        decreases v.len() - i,
    {
        assert(s@.take(i + 1) =~= s@.take(i as int).push(s@[i as int]));
        let c: char = fold_char(v[i]);
        if c == '\\' {
            r.push('/');
        } else {
            r.push(c);
        }
        i += 1;
        assert(r@ =~= text::replaced(folded(s@.take(i as int)), '\\', '/'));
    }
    assert(s@.take(i as int) =~= s@);
    r
}

/// Subfolder created when the launcher is run from somewhere it shouldn't install into.
pub const INSTALL_FOLDER_NAME: &'static str = "Quakers";

/// Folder names that are containers for *other* things, never a home for an install. Matched on
/// the last component, so OneDrive- or Dropbox-redirected Desktops are caught too.
pub open spec fn is_container_name(name: Seq<char>) -> bool {
    ||| name == "desktop"@
    ||| name == "downloads"@
    ||| name == "download"@
    ||| name == "documents"@
    ||| name == "pictures"@
    ||| name == "music"@
    ||| name == "videos"@
    ||| name == "public"@
    ||| name == "onedrive"@
    ||| name == "dropbox"@
    ||| name == "google drive"@
    ||| name == "icloud drive"@
}

/// The container name that `base` is, letter case aside.
fn container_name(base: &str) -> (r: Option<&'static str>)
    ensures
        r is Some <==> is_container_name(folded(base@)),
        r matches Some(name) ==> name@ == folded(base@),
{
    let names: [&'static str; 12] = [
        "desktop",
        "downloads",
        "download",
        "documents",
        "pictures",
        "music",
        "videos",
        "public",
        "onedrive",
        "dropbox",
        "google drive",
        "icloud drive",
    ];
    let mut i: usize = 0;
    while i < names.len()
        invariant
            i <= names.len(),
            names@.len() == 12,
            names@[0]@ == "desktop"@,
            names@[1]@ == "downloads"@,
            names@[2]@ == "download"@,
            names@[3]@ == "documents"@,
            names@[4]@ == "pictures"@,
            names@[5]@ == "music"@,
            names@[6]@ == "videos"@,
            names@[7]@ == "public"@,
            names@[8]@ == "onedrive"@,
            names@[9]@ == "dropbox"@,
            names@[10]@ == "google drive"@,
            names@[11]@ == "icloud drive"@,
            forall|j: int| 0 <= j < i ==> names@[j]@ != folded(base@),
        decreases names.len() - i,
    {
        if folds_to(base, names[i]) {
            return Some(names[i]);
        }
        i += 1;
    }
    None
}

/// Whether `s` is `word`, letter case aside.
fn folds_to(s: &str, word: &str) -> (r: bool)
    ensures
        r == (folded(s@) == word@),
{
    let v = chars_of(s);
    let w = chars_of(word);
    if v.len() != w.len() {
        assert(folded(s@).len() != word@.len());
        return false;
    }
    let mut i: usize = 0;
    while i < v.len()
        invariant
            i <= v.len(),
            v@ == s@,
            w@ == word@,
            v.len() == w.len(),
            forall|j: int| 0 <= j < i ==> folded(s@)[j] == word@[j],
        decreases v.len() - i,
    {
        if fold_char(v[i]) != w[i] {
            assert(folded(s@)[i as int] != word@[i as int]);
            return false;
        }
        i += 1;
    }
    assert(folded(s@) =~= word@);
    true
}

/// Whether a path leads into one of the Windows system locations.
pub open spec fn is_system_location(parts: Seq<Part>) -> bool {
    let text = text::replaced(folded(paths::path_text(parts)), '\\', '/');
    ||| text::find(text, "/windows"@) is Some
    ||| text::find(text, "/program files"@) is Some
    ||| text::find(text, "/program files (x86)"@) is Some
    ||| text::find(text, "/programdata"@) is Some
}

/// Whether a path is a root: a directory without a parent, or no directory at all.
pub open spec fn is_root(parts: Seq<Part>) -> bool {
    parts.len() <= 1 || parts.last() is RootDir || parts.last() is Prefix
}

/// The last name of a path, folded; empty when the path does not end in a name.
pub open spec fn base_name(parts: Seq<Part>) -> Seq<char> {
    if parts.len() > 0 && parts.last() is Normal {
        folded(parts.last()->Normal_0)
    } else {
        Seq::empty()
    }
}

/// Whether a path is the home folder, as far as that is known.
pub open spec fn is_home(parts: Seq<Part>, home: Option<Seq<Part>>) -> bool {
    home matches Some(h) && paths::same_path(parts, h)
}

/// Why a directory is a bad place to unpack thousands of files.
pub open spec fn container_reason_text(parts: Seq<Part>, home: Option<Seq<Part>>) -> Option<Seq<char>> {
    if is_root(parts) {
        Some("a drive root"@)
    } else if is_home(parts, home) {
        Some("your home folder"@)
    } else if is_container_name(base_name(parts)) {
        Some("your "@ + text::trim_end(base_name(parts), 's') + " folder"@)
    } else if is_system_location(parts) {
        Some("a system folder"@)
    } else {
        None
    }
}

/// The path behind an optional reference.
pub open spec fn view_of(path: Option<&InstallPath>) -> Option<Seq<Part>> {
    match path {
        Some(p) => Some(p@),
        None => None,
    }
}

/// Why `dir` is a bad place to unpack thousands of files, or None if it's fine.
///
/// The failure this prevents: someone drops the launcher on their Desktop and double-clicks it.
/// The install dir defaults to the launcher's own folder, so the entire game — a `quakers/` tree
/// plus the engine binaries — lands loose on the Desktop, interleaved with everything else they
/// own. A drive root is worse still.
pub fn container_reason_in(dir: &InstallPath, home: Option<&InstallPath>) -> (r: Option<String>)
    ensures
        match r {
            Some(why) => container_reason_text(dir@, view_of(home)) == Some(why@),
            None => container_reason_text(dir@, view_of(home)) is None,
        },
{
    let n: usize = dir.components.len();
    if n <= 1 {
        return Some("a drive root".to_owned());
    }
    let base: &str = match &dir.components[n - 1] {
        Component::RootDir => {
            return Some("a drive root".to_owned());
        },
        Component::Prefix(_) => {
            return Some("a drive root".to_owned());
        },
        Component::Normal(name) => name.as_str(),
        _ => {
            proof {
                reveal_strlit("");
                assert(folded(""@) =~= Seq::empty());
            }
            ""
        },
    };
    assert(folded(base@) == base_name(dir@));
    if let Some(h) = home {
        if dir.equals(h) {
            return Some("your home folder".to_owned());
        }
    }
    if let Some(name) = container_name(base) {
        let mut why = "your ".to_owned();
        why.append(without_end(name, 's'));
        why.append(" folder");
        return Some(why);
    }
    let text = normal_chars(dir.text().as_str());
    if find_chars(&text, &chars_of("/windows")).is_some()
        || find_chars(&text, &chars_of("/program files")).is_some()
        || find_chars(&text, &chars_of("/program files (x86)")).is_some()
        || find_chars(&text, &chars_of("/programdata")).is_some() {
        return Some("a system folder".to_owned());
    }
    None
}

/// A path made absolute against the current directory, if that is known.
pub open spec fn absolute_parts(requested: Seq<Part>, cwd: Option<Seq<Part>>, os: Os) -> Seq<Part> {
    if paths::is_absolute_parts(requested, os) || cwd is None {
        paths::recollected(requested)
    } else {
        paths::recollected(paths::joined(cwd->0, requested))
    }
}

/// Resolve a relative install dir against the current directory.
///
/// The guard reasons about path *shape* — component count, last name, whether there is a parent —
/// and none of that means anything for a relative path: `.` has exactly one component, so left
/// unresolved it reads as a drive root.
pub fn absolutise(requested: &InstallPath, cwd: Option<&InstallPath>, os: Os) -> (r: InstallPath)
    ensures
        r@ == absolute_parts(requested@, view_of(cwd), os),
{
    if requested.is_absolute(os) {
        return requested.recollect();
    }
    match cwd {
        Some(dir) => dir.join(requested).recollect(),
        None => requested.recollect(),
    }
}

/// The install directory for a request, and why it differs from the request.
pub open spec fn resolved(
    requested: Seq<Part>,
    cwd: Option<Seq<Part>>,
    home: Option<Seq<Part>>,
    os: Os,
    allow_unsafe: bool,
) -> (Seq<Part>, Option<Seq<char>>) {
    let dir = absolute_parts(requested, cwd, os);
    if allow_unsafe || container_reason_text(dir, home) is None {
        (dir, None)
    } else {
        (paths::child_parts(dir, INSTALL_FOLDER_NAME@), container_reason_text(dir, home))
    }
}

/// Apply the guard: if `requested` is a container folder, install into a subfolder of it.
pub fn resolve_install_dir(
    requested: &InstallPath,
    cwd: Option<&InstallPath>,
    home: Option<&InstallPath>,
    os: Os,
    allow_unsafe: bool,
) -> (r: (InstallPath, Option<String>))
    ensures
        r.0@ == resolved(requested@, view_of(cwd), view_of(home), os, allow_unsafe).0,
        match r.1 {
            Some(why) => resolved(requested@, view_of(cwd), view_of(home), os, allow_unsafe).1 == Some(why@),
            None => resolved(requested@, view_of(cwd), view_of(home), os, allow_unsafe).1 is None,
        },
{
    let dir = absolutise(requested, cwd, os);
    if allow_unsafe {
        return (dir, None);
    }
    match container_reason_in(&dir, home) {
        Some(why) => (dir.child(INSTALL_FOLDER_NAME), Some(why)),
        None => (dir, None),
    }
}

proof fn lemma_install_folder_is_no_container()
    ensures
        !is_container_name(folded(INSTALL_FOLDER_NAME@)),
{
    reveal_strlit("Quakers");
    reveal_strlit("desktop");
    reveal_strlit("downloads");
    reveal_strlit("download");
    reveal_strlit("documents");
    reveal_strlit("pictures");
    reveal_strlit("music");
    reveal_strlit("videos");
    reveal_strlit("public");
    reveal_strlit("onedrive");
    reveal_strlit("dropbox");
    reveal_strlit("google drive");
    reveal_strlit("icloud drive");
    let name = folded(INSTALL_FOLDER_NAME@);
    assert(name.len() == 7);
    assert(name[0] == 'q');
    assert("desktop"@[0] == 'd');
    assert("dropbox"@[0] == 'd');
}

/// A redirect goes one level down and no further: asked for the directory that it came up with,
/// the guard leaves it alone. Outside system locations, whose subfolders are system locations
/// too, and unless the subfolder happens to be the home folder.
pub proof fn law_redirect_is_stable(
    requested: Seq<Part>,
    cwd: Option<Seq<Part>>,
    home: Option<Seq<Part>>,
    os: Os,
)
    requires
        resolved(requested, cwd, home, os, false).1 is Some,
        cwd matches Some(dir) ==> paths::is_absolute_parts(dir, os),
        resolved(requested, cwd, home, os, false).0.len() >= 2,
        !is_home(resolved(requested, cwd, home, os, false).0, home),
        !is_system_location(resolved(requested, cwd, home, os, false).0),
    ensures
        resolved(resolved(requested, cwd, home, os, false).0, cwd, home, os, false) == (
            resolved(requested, cwd, home, os, false).0,
            None::<Seq<char>>,
        ),
{
    let dir = absolute_parts(requested, cwd, os);
    let target = resolved(requested, cwd, home, os, false).0;
    assert(target == paths::child_parts(dir, INSTALL_FOLDER_NAME@));
    let whole = if paths::is_absolute_parts(requested, os) || cwd is None {
        requested
    } else {
        paths::lemma_joined_absolute(cwd->0, requested, os);
        paths::joined(cwd->0, requested)
    };
    paths::lemma_recollected_child(whole, INSTALL_FOLDER_NAME@);
    paths::lemma_recollected_child(target, Seq::empty());
    if !paths::is_absolute_parts(target, os) && cwd is Some {
        if paths::is_absolute_parts(requested, os) {
            assert(target[0] == requested[0]);
        }
        assert(target[0] is Prefix);
        assert(paths::joined(cwd->0, target) == target);
    }
    assert(absolute_parts(target, cwd, os) == target);
    lemma_install_folder_is_no_container();
}

/// With the guard switched off the request is taken as it is, made absolute.
pub proof fn law_override_disables_the_guard(
    requested: Seq<Part>,
    cwd: Option<Seq<Part>>,
    home: Option<Seq<Part>>,
    os: Os,
)
    ensures
        resolved(requested, cwd, home, os, true) == (
            absolute_parts(requested, cwd, os),
            None::<Seq<char>>,
        ),
{
}

/// Installing into `.` means installing into exactly the current directory.
pub proof fn law_dot_means_here(cwd: Seq<Part>, os: Os)
    requires
        paths::is_absolute_parts(cwd, os),
        paths::recollected(cwd) == cwd,
    ensures
        absolute_parts(seq![Part::CurDir], Some(cwd), os) == cwd,
{
    let dot = seq![Part::CurDir];
    if paths::is_verbatim(cwd) {
        assert(dot.drop_last() =~= Seq::empty());
        reveal_with_fuel(crate::paths::appended_verbatim, 2);
    } else {
        assert((cwd + dot).drop_last() =~= cwd);
        assert((cwd + dot).last() is CurDir);
    }
}

/// The launcher's own directory, or the current one where that is unknown.
pub open spec fn default_dir(exe: Option<Seq<Part>>) -> Seq<Part> {
    match exe {
        Some(path) => match paths::parent_parts(path) {
            Some(dir) => dir,
            None => seq![Part::CurDir],
        },
        None => seq![Part::CurDir],
    }
}

/// The directory to install into when nothing else is asked for.
pub fn default_install_dir(exe: Option<&InstallPath>) -> (r: InstallPath)
    ensures
        r@ == default_dir(view_of(exe)),
{
    if let Some(path) = exe {
        if let Some(dir) = path.parent() {
            return dir;
        }
    }
    let mut components: Vec<Component> = Vec::new();
    components.push(Component::CurDir);
    let r = InstallPath { components };
    assert(r@ =~= seq![Part::CurDir]);
    r
}

/// Whether a path of a manifest can only lead below the install root: relative, forward slashes
/// only, no drive letter, and nothing but names between the slashes.
pub open spec fn is_safe(path: Seq<char>) -> bool {
    &&& path.len() > 0
    &&& path[0] != '/'
    &&& !path.contains('\\')
    &&& !path.contains(':')
    &&& forall|i: int| 0 <= i < text::pieces(path, '/').len() ==> is_name(#[trigger] text::pieces(path, '/')[i])
}

/// Whether a piece of a path names an entry of a directory.
pub open spec fn is_name(piece: Seq<char>) -> bool {
    piece.len() > 0 && piece != "."@ && piece != ".."@
}

/// Whether the list of retired files may name `p`. The list comes from outside, so it is
/// validated rather than trusted.
pub fn is_safe_relpath(p: &str) -> (r: bool)
    ensures
        r == is_safe(p@),
{
    let v = chars_of(p);
    if v.len() == 0 || v[0] == '/' || has_char(p, '\\') || has_char(p, ':') {
        return false;
    }
    let list = split(p, '/');
    let ghost all = text::pieces(p@, '/');
    let mut i: usize = 0;
    while i < list.len()
        invariant
            i <= list.len(),
            all == text::pieces(p@, '/'),
            text::views(list@) == all,
            forall|j: int| 0 <= j < i ==> is_name(#[trigger] all[j]),
        decreases list.len() - i,
    {
        assert(all[i as int] == list@[i as int]@);
        let piece: &str = list[i].as_str();
        if piece.unicode_len() == 0 || same(piece, ".") || same(piece, "..") {
            assert(!is_name(all[i as int]));
            return false;
        }
        i += 1;
    }
    true
}

/// What to do about a path that the manifest has retired.
#[derive(Debug)]
pub enum Removal {
    /// Delete the file, then the directories in turn, from the innermost out, up to the first
    /// that is not empty.
    Delete { file: InstallPath, dirs: Vec<InstallPath> },
    /// Leave it alone: the path might lead out of the install root.
    Ignore { path: String },
}

/// The directories from `dir` outwards that lie below `root`.
pub open spec fn dirs_below(dir: Seq<Part>, root: Seq<Part>) -> Seq<Seq<Part>>
    decreases dir.len(),
{
    if paths::same_path(dir, root) || !paths::lies_within(root, dir) {
        Seq::empty()
    } else {
        match paths::parent_parts(dir) {
            Some(outer) => seq![dir] + dirs_below(outer, root),
            None => seq![dir],
        }
    }
}

/// Where a retired path lies on disk.
pub open spec fn retired_file(root: Seq<Part>, path: Seq<char>) -> Seq<Part> {
    paths::joined(root, paths::portable_parts(path))
}

/// The directories that deleting a retired path may leave empty.
pub open spec fn retired_dirs(root: Seq<Part>, path: Seq<char>) -> Seq<Seq<Part>> {
    match paths::parent_parts(retired_file(root, path)) {
        Some(dir) => dirs_below(dir, root),
        None => Seq::empty(),
    }
}

/// The paths that a list of paths holds.
pub open spec fn path_views(list: Seq<InstallPath>) -> Seq<Seq<Part>> {
    list.map_values(|p: InstallPath| p@)
}

impl Removal {
    /// Whether this is what has to happen to a retired path.
    pub open spec fn settles(self, root: Seq<Part>, path: Seq<char>) -> bool {
        match self {
            Removal::Delete { file, dirs } => is_safe(path) && file@ == retired_file(root, path) && path_views(dirs@)
                == retired_dirs(root, path),
            Removal::Ignore { path: ignored } => !is_safe(path) && ignored@ == path,
        }
    }
}

fn dirs_from(dir: InstallPath, root: &InstallPath) -> (r: Vec<InstallPath>)
    ensures
        path_views(r@) == dirs_below(dir@, root@),
{
    let mut r: Vec<InstallPath> = Vec::new();
    let ghost start = dir@;
    let mut current = dir;
    assert(path_views(r@) + dirs_below(current@, root@) =~= dirs_below(start, root@));
    loop
        invariant
            start == dir@,
            path_views(r@) + dirs_below(current@, root@) == dirs_below(start, root@),
        decreases current@.len(),
    {
        if current.equals(root) || !current.is_within(root) {
            assert(path_views(r@) + dirs_below(current@, root@) =~= path_views(r@));
            return r;
        }
        let ghost before = path_views(r@);
        match current.parent() {
            Some(outer) => {
                let ghost inner = current@;
                r.push(current);
                assert(path_views(r@) =~= before.push(inner));
                assert(path_views(r@) + dirs_below(outer@, root@) =~= before + dirs_below(inner, root@));
                current = outer;
            },
            None => {
                let ghost inner = current@;
                r.push(current);
                assert(path_views(r@) =~= before + dirs_below(inner, root@));
                return r;
            },
        }
    }
}

/// What to do about each path that the manifest has retired, in its order.
pub fn prune_removed(removed: &Vec<String>, install_dir: &InstallPath) -> (r: Vec<Removal>)
    ensures
        r@.len() == removed@.len(),
        forall|i: int| 0 <= i < r@.len() ==> (#[trigger] r@[i]).settles(install_dir@, removed@[i]@),
{
    let mut r: Vec<Removal> = Vec::new();
    let mut i: usize = 0;
    while i < removed.len()
        invariant
            i <= removed.len(),
            r@.len() == i,
            forall|j: int| 0 <= j < i ==> (#[trigger] r@[j]).settles(install_dir@, removed@[j]@),
        decreases removed.len() - i,
    {
        let rel: &str = removed[i].as_str();
        if is_safe_relpath(rel) {
            proof {
                lemma_safe_is_portable(rel@);
            }
            let file = install_dir.join(&InstallPath::parse(rel));
            let dirs = match file.parent() {
                Some(dir) => dirs_from(dir, install_dir),
                None => Vec::new(),
            };
            assert(path_views(dirs@) =~= retired_dirs(install_dir@, rel@));
            r.push(Removal::Delete { file, dirs });
        } else {
            r.push(Removal::Ignore { path: removed[i].clone() });
        }
        i += 1;
    }
    r
}

proof fn lemma_safe_is_portable(path: Seq<char>)
    requires
        is_safe(path),
    ensures
        paths::is_portable(path),
        !text::starts_with(path, "/"@),
{
    reveal_strlit("/");
    reveal_strlit("//");
    if text::starts_with(path, "/"@) {
        assert(path.take(1)[0] == '/');
    }
    if text::starts_with(path, "//"@) {
        assert(path.take(2)[0] == '/');
    }
}

proof fn lemma_names_are_parts(list: Seq<Seq<char>>, opening: bool)
    requires
        forall|i: int| 0 <= i < list.len() ==> is_name(#[trigger] list[i]),
    ensures
        paths::parts_of_pieces(list, opening) == list.map_values(|s: Seq<char>| Part::Normal(s)),
    decreases list.len(),
{
    let parts = list.map_values(|s: Seq<char>| Part::Normal(s));
    if list.len() > 0 {
        assert(is_name(list[0]));
        assert forall|i: int| 0 <= i < list.drop_first().len() implies is_name(#[trigger] list.drop_first()[i]) by {
            assert(list.drop_first()[i] == list[i + 1]);
        }
        lemma_names_are_parts(list.drop_first(), false);
        assert(parts =~= seq![Part::Normal(list[0])] + list.drop_first().map_values(|s: Seq<char>| Part::Normal(s)));
    } else {
        assert(parts =~= Seq::empty());
    }
}

/// A retired path leads below the install root: the root, then one name or more.
/// (A bare verbatim prefix first gets a root, so it is left out.)
pub proof fn law_retired_file_is_inside(root: Seq<Part>, path: Seq<char>)
    requires
        is_safe(path),
        if paths::is_verbatim(root) {
            root.len() >= 2
        } else {
            root.len() > 0 && paths::no_inner_cur_dir(root)
        },
    ensures
        root.is_prefix_of(retired_file(root, path)),
        retired_file(root, path).len() > root.len(),
        forall|i: int| root.len() <= i < retired_file(root, path).len() ==> #[trigger] retired_file(root, path)[i] is Normal,
{
    lemma_safe_is_portable(path);
    let list = text::pieces(path, '/');
    lemma_names_are_parts(list, true);
    let names = paths::portable_parts(path);
    assert(names =~= list.map_values(|s: Seq<char>| Part::Normal(s)));
    assert(names.len() >= 1);
    paths::lemma_joined_names(root, names);
    assert(root =~= (root + names).subrange(0, root.len() as int));
}

/// Tidying up never climbs out: each directory that may be deleted lies below the install root
/// and holds the deleted file.
pub proof fn law_tidied_dirs_are_inside(root: Seq<Part>, path: Seq<char>, i: int)
    requires
        is_safe(path),
        0 <= i < retired_dirs(root, path).len(),
    ensures
        paths::lies_within(root, retired_dirs(root, path)[i]),
        !paths::same_path(retired_dirs(root, path)[i], root),
        retired_dirs(root, path)[i].is_prefix_of(retired_file(root, path)),
        retired_dirs(root, path)[i] != retired_file(root, path),
{
    let file = retired_file(root, path);
    let dir = paths::parent_parts(file)->0;
    lemma_dirs_below(dir, root, i);
    let d = retired_dirs(root, path)[i];
    assert(d =~= file.subrange(0, d.len() as int)) by {
        assert(d =~= dir.subrange(0, d.len() as int));
    }
}

proof fn lemma_dirs_below(dir: Seq<Part>, root: Seq<Part>, i: int)
    requires
        0 <= i < dirs_below(dir, root).len(),
    ensures
        paths::lies_within(root, dirs_below(dir, root)[i]),
        !paths::same_path(dirs_below(dir, root)[i], root),
        dirs_below(dir, root)[i].is_prefix_of(dir),
    decreases dir.len(),
{
    if i == 0 {
        assert(dir =~= dir.subrange(0, dir.len() as int));
    } else {
        let outer = paths::parent_parts(dir)->0;
        lemma_dirs_below(outer, root, i - 1);
        let d = dirs_below(dir, root)[i];
        assert(d == dirs_below(outer, root)[i - 1]);
        assert(d =~= dir.subrange(0, d.len() as int)) by {
            assert(d =~= outer.subrange(0, d.len() as int));
        }
    }
}

/// Folding undoes upper case, and leaves lower-case letters as they are.
pub proof fn law_folding_ignores_case(c: char)
    ensures
        'a' <= c <= 'z' ==> folded_char(c) == c && paths::upper_letter(c) != c && folded_char(paths::upper_letter(c)) == c,
        folded_char(folded_char(c)) == folded_char(c),
        !('A' <= c <= 'Z') && c != '\u{212a}' ==> folded_char(c) == c,
{
}

/// Without the override every reason against a directory redirects, whichever it is: the install
/// goes into a folder of its own below the directory that was asked for, and the reason is told.
/// Where there is none, the install goes where it was asked to go, and nothing is said.
pub proof fn law_every_reason_redirects(
    requested: InstallPath,
    cwd: Option<&InstallPath>,
    home: Option<&InstallPath>,
    os: Os,
    chosen: (InstallPath, Option<String>),
)
    requires
        call_ensures(resolve_install_dir, (&requested, cwd, home, os, false), chosen),
    ensures
        ({
            let dir = absolute_parts(requested@, view_of(cwd), os);
            match container_reason_text(dir, view_of(home)) {
                Some(why) => chosen.0@ == paths::child_parts(dir, "Quakers"@) && (chosen.1 matches Some(told) && told@ == why),
                None => chosen.0@ == dir && chosen.1 is None,
            }
        }),
{
}

/// The home folder is never installed into: asked for it, the guard goes one level down and says
/// that it is the home folder.
pub proof fn law_home_is_never_installed_into(
    requested: InstallPath,
    cwd: Option<&InstallPath>,
    home: &InstallPath,
    os: Os,
    chosen: (InstallPath, Option<String>),
)
    requires
        call_ensures(resolve_install_dir, (&requested, cwd, Some(home), os, false), chosen),
        absolute_parts(requested@, view_of(cwd), os) == home@,
        home@.len() >= 2,
        home@.last() is Normal,
    ensures
        chosen.0@ == home@.push(Part::Normal("Quakers"@)),
        chosen.1 matches Some(why) && why@ == "your home folder"@,
{
}

/// A root is a bad place on every platform, whoever's home it may be: the root of a file system, a
/// drive, and a path with a single component or none.
pub proof fn law_roots_are_containers(parts: Seq<Part>, home: Option<Seq<Part>>)
    ensures
        container_reason_text(parts, home) == Some("a drive root"@) || !(parts.len() <= 1 || parts.last() is RootDir
            || parts.last() is Prefix),
        container_reason_text(seq![Part::RootDir], home) == Some("a drive root"@),
        parts.len() > 0 && parts[0] is Prefix ==> container_reason_text(seq![parts[0], Part::RootDir], home) == Some(
            "a drive root"@,
        ),
{
}

/// The home folder is a bad place, and it is told apart from every other reason but a root.
pub proof fn law_home_is_a_container(parts: Seq<Part>)
    requires
        parts.len() >= 2,
        !(parts.last() is RootDir),
        !(parts.last() is Prefix),
    ensures
        container_reason_text(parts, Some(parts)) == Some("your home folder"@),
{
}

proof fn lemma_word_without_s(word: Seq<char>, stem: Seq<char>)
    requires
        word == stem || word == stem.push('s'),
        stem.len() > 0,
        stem.last() != 's',
    ensures
        text::trim_end(word, 's') == stem,
{
    assert(stem.push('s').drop_last() =~= stem);
    reveal_with_fuel(crate::text::trim_end, 2);
}

/// The usual containers are bad places wherever they lie, in whatever case they are written: the
/// reason names the folder, in the singular.
#[verifier::spinoff_prover]
pub proof fn law_container_names_are_containers(parts: Seq<Part>, home: Option<Seq<Part>>)
    requires
        parts.len() >= 2,
        parts.last() is Normal,
        home matches Some(h) ==> !paths::same_path(parts, h),
    ensures
        ({
            let name = folded(parts.last()->Normal_0);
            let why = container_reason_text(parts, home);
            &&& name == "desktop"@ ==> why == Some("your desktop folder"@)
            &&& name == "downloads"@ || name == "download"@ ==> why == Some("your download folder"@)
            &&& name == "documents"@ ==> why == Some("your document folder"@)
            &&& name == "pictures"@ ==> why == Some("your picture folder"@)
            &&& name == "music"@ ==> why == Some("your music folder"@)
            &&& name == "videos"@ ==> why == Some("your video folder"@)
            &&& name == "public"@ ==> why == Some("your public folder"@)
            &&& name == "onedrive"@ ==> why == Some("your onedrive folder"@)
            &&& name == "dropbox"@ ==> why == Some("your dropbox folder"@)
            &&& name == "google drive"@ ==> why == Some("your google drive folder"@)
            &&& name == "icloud drive"@ ==> why == Some("your icloud drive folder"@)
        }),
{
    reveal_strlit("your ");
    reveal_strlit(" folder");
    let name = folded(parts.last()->Normal_0);
    if name == "desktop"@ {
        reveal_strlit("desktop");
        reveal_strlit("your desktop folder");
        lemma_word_without_s("desktop"@, "desktop"@);
        assert("your "@ + "desktop"@ + " folder"@ =~= "your desktop folder"@);
    }
    if name == "downloads"@ || name == "download"@ {
        reveal_strlit("downloads");
        reveal_strlit("download");
        reveal_strlit("your download folder");
        assert("downloads"@ =~= "download"@.push('s'));
        lemma_word_without_s(name, "download"@);
        assert("your "@ + "download"@ + " folder"@ =~= "your download folder"@);
    }
    if name == "documents"@ {
        reveal_strlit("documents");
        reveal_strlit("document");
        reveal_strlit("your document folder");
        assert("documents"@ =~= "document"@.push('s'));
        lemma_word_without_s(name, "document"@);
        assert("your "@ + "document"@ + " folder"@ =~= "your document folder"@);
    }
    if name == "pictures"@ {
        reveal_strlit("pictures");
        reveal_strlit("picture");
        reveal_strlit("your picture folder");
        assert("pictures"@ =~= "picture"@.push('s'));
        lemma_word_without_s(name, "picture"@);
        assert("your "@ + "picture"@ + " folder"@ =~= "your picture folder"@);
    }
    if name == "music"@ {
        reveal_strlit("music");
        reveal_strlit("your music folder");
        lemma_word_without_s(name, "music"@);
        assert("your "@ + "music"@ + " folder"@ =~= "your music folder"@);
    }
    if name == "videos"@ {
        reveal_strlit("videos");
        reveal_strlit("video");
        reveal_strlit("your video folder");
        assert("videos"@ =~= "video"@.push('s'));
        lemma_word_without_s(name, "video"@);
        assert("your "@ + "video"@ + " folder"@ =~= "your video folder"@);
    }
    if name == "public"@ {
        reveal_strlit("public");
        reveal_strlit("your public folder");
        lemma_word_without_s(name, "public"@);
        assert("your "@ + "public"@ + " folder"@ =~= "your public folder"@);
    }
    if name == "onedrive"@ {
        reveal_strlit("onedrive");
        reveal_strlit("your onedrive folder");
        lemma_word_without_s(name, "onedrive"@);
        assert("your "@ + "onedrive"@ + " folder"@ =~= "your onedrive folder"@);
    }
    if name == "dropbox"@ {
        reveal_strlit("dropbox");
        reveal_strlit("your dropbox folder");
        lemma_word_without_s(name, "dropbox"@);
        assert("your "@ + "dropbox"@ + " folder"@ =~= "your dropbox folder"@);
    }
    if name == "google drive"@ {
        reveal_strlit("google drive");
        reveal_strlit("your google drive folder");
        lemma_word_without_s(name, "google drive"@);
        assert("your "@ + "google drive"@ + " folder"@ =~= "your google drive folder"@);
    }
    if name == "icloud drive"@ {
        reveal_strlit("icloud drive");
        reveal_strlit("your icloud drive folder");
        lemma_word_without_s(name, "icloud drive"@);
        assert("your "@ + "icloud drive"@ + " folder"@ =~= "your icloud drive folder"@);
    }
}

/// A name behind a directory stands behind a slash in the text of the path.
proof fn lemma_name_in_path_text(parts: Seq<Part>, i: int) -> (around: (Seq<char>, Seq<char>))
    requires
        0 < i < parts.len(),
        parts[i] is Normal,
        !(parts[i - 1] is Prefix),
    ensures
        paths::path_text(parts) == around.0.push('/') + parts[i]->Normal_0 + around.1,
    decreases parts.len(),
{
    reveal_strlit("/");
    let name = parts[i]->Normal_0;
    let front = parts.drop_last();
    if i == parts.len() - 1 {
        if parts[i - 1] is RootDir {
            let a = paths::path_text(front.drop_last());
            assert(front.last() is RootDir);
            assert(paths::path_text(front) =~= a.push('/'));
            assert(paths::path_text(parts) =~= a.push('/') + name + Seq::<char>::empty());
            (a, Seq::empty())
        } else {
            let a = paths::path_text(front);
            assert(paths::path_text(parts) =~= a.push('/') + name + Seq::<char>::empty());
            (a, Seq::empty())
        }
    } else {
        let (a, b) = lemma_name_in_path_text(front, i);
        let more = paths::path_text(parts).skip(paths::path_text(front).len() as int);
        assert(paths::path_text(parts) =~= paths::path_text(front) + more);
        assert(paths::path_text(parts) =~= a.push('/') + name + (b + more));
        (a, b + more)
    }
}

/// A path through a directory whose name begins like that of a Windows system folder leads into a
/// system location, however deep it goes on.
pub proof fn law_system_folders_are_system_locations(parts: Seq<Part>, i: int)
    requires
        0 < i < parts.len(),
        parts[i] is Normal,
        !(parts[i - 1] is Prefix),
        text::starts_with(folded(parts[i]->Normal_0), "windows"@) || text::starts_with(
            folded(parts[i]->Normal_0),
            "program files"@,
        ) || text::starts_with(folded(parts[i]->Normal_0), "programdata"@),
    ensures
        is_system_location(parts),
{
    let name = folded(parts[i]->Normal_0);
    if text::starts_with(name, "windows"@) {
        reveal_strlit("windows");
        reveal_strlit("/windows");
        lemma_word_in_path_text(parts, i, "windows"@);
        assert("/windows"@ =~= seq!['/'] + "windows"@);
    }
    if text::starts_with(name, "program files"@) {
        reveal_strlit("program files");
        reveal_strlit("/program files");
        lemma_word_in_path_text(parts, i, "program files"@);
        assert("/program files"@ =~= seq!['/'] + "program files"@);
    }
    if text::starts_with(name, "programdata"@) {
        reveal_strlit("programdata");
        reveal_strlit("/programdata");
        lemma_word_in_path_text(parts, i, "programdata"@);
        assert("/programdata"@ =~= seq!['/'] + "programdata"@);
    }
}

/// A word that a name begins with is found behind a slash in the text of the path.
proof fn lemma_word_in_path_text(parts: Seq<Part>, i: int, word: Seq<char>)
    requires
        0 < i < parts.len(),
        parts[i] is Normal,
        !(parts[i - 1] is Prefix),
        text::starts_with(folded(parts[i]->Normal_0), word),
        forall|k: int| 0 <= k < word.len() ==> word[k] != '\\',
    ensures
        text::find(text::replaced(folded(paths::path_text(parts)), '\\', '/'), seq!['/'] + word) is Some,
{
    let name = parts[i]->Normal_0;
    let (a, b) = lemma_name_in_path_text(parts, i);
    let raw = paths::path_text(parts);
    let text = text::replaced(folded(raw), '\\', '/');
    let before = text.take(a.len() as int);
    let mark = seq!['/'] + word;
    let behind = text.skip(a.len() as int + 1 + word.len());
    assert forall|k: int| 0 <= k < word.len() implies text[a.len() + 1 + k] == word[k] by {
        assert(folded(name).take(word.len() as int)[k] == folded(name)[k]);
        assert(folded(name)[k] == folded_char(name[k]));
        assert(raw[a.len() + 1 + k] == name[k]);
    }
    assert(raw[a.len() as int] == '/');
    assert(text =~= before + mark + behind);
    text::law_search_finds_the_first(before, mark, behind);
}

/// A directory is a bad place for these reasons alone: it is a root, it is the home folder, its name
/// is that of a container, or it lies in a system location. A system location has its own reason
/// where no other is in front of it.
#[verifier::spinoff_prover]
pub proof fn law_no_other_reason(parts: Seq<Part>, home: Option<Seq<Part>>)
    ensures
        ({
            let root = parts.len() <= 1 || parts.last() is RootDir || parts.last() is Prefix;
            let at_home = home matches Some(h) && paths::same_path(parts, h);
            let named = parts.len() > 0 && parts.last() is Normal && is_container_name(folded(parts.last()->Normal_0));
            &&& container_reason_text(parts, home) is None <==> !root && !at_home && !named && !is_system_location(parts)
            &&& !root && !at_home && !named && is_system_location(parts) ==> container_reason_text(parts, home) == Some(
                "a system folder"@,
            )
        }),
{
    reveal_strlit("desktop");
    reveal_strlit("downloads");
    reveal_strlit("download");
    reveal_strlit("documents");
    reveal_strlit("pictures");
    reveal_strlit("music");
    reveal_strlit("videos");
    reveal_strlit("public");
    reveal_strlit("onedrive");
    reveal_strlit("dropbox");
    reveal_strlit("google drive");
    reveal_strlit("icloud drive");
    assert("desktop"@.len() > 0);
    assert("downloads"@.len() > 0);
    assert("download"@.len() > 0);
    assert("documents"@.len() > 0);
    assert("pictures"@.len() > 0);
    assert("music"@.len() > 0);
    assert("videos"@.len() > 0);
    assert("public"@.len() > 0);
    assert("onedrive"@.len() > 0);
    assert("dropbox"@.len() > 0);
    assert("google drive"@.len() > 0);
    assert("icloud drive"@.len() > 0);
    assert(!is_container_name(Seq::<char>::empty()));
}

/// A game folder of an ordinary name is left alone: outside the home folder and the system locations
/// the guard objects to nothing but the containers' names.
pub proof fn law_ordinary_folders_are_left_alone(parts: Seq<Part>, home: Option<Seq<Part>>)
    requires
        parts.len() >= 2,
        parts.last() is Normal,
        home matches Some(h) ==> !paths::same_path(parts, h),
        !is_system_location(parts),
        ({
            let name = folded(parts.last()->Normal_0);
            name != "desktop"@ && name != "downloads"@ && name != "download"@ && name != "documents"@ && name
                != "pictures"@ && name != "music"@ && name != "videos"@ && name != "public"@ && name != "onedrive"@ && name
                != "dropbox"@ && name != "google drive"@ && name != "icloud drive"@
        }),
    ensures
        container_reason_text(parts, home) is None,
{
}

/// A system location is told by its text, and by one of three words behind a slash: a path whose
/// text has none of them is in no system location.
pub proof fn law_system_location_takes_a_word(parts: Seq<Part>)
    requires
        is_system_location(parts),
    ensures
        exists|k: int|
            0 <= k < paths::path_text(parts).len() && ({
                let rest = #[trigger] text::replaced(folded(paths::path_text(parts)), '\\', '/').skip(k);
                text::starts_with(rest, "/windows"@) || text::starts_with(rest, "/program files"@) || text::starts_with(
                    rest,
                    "/programdata"@,
                )
            }),
{
    reveal_strlit("/windows");
    reveal_strlit("/program files");
    reveal_strlit("/program files (x86)");
    reveal_strlit("/programdata");
    let text = text::replaced(folded(paths::path_text(parts)), '\\', '/');
    text::lemma_find(text, "/windows"@);
    text::lemma_find(text, "/program files"@);
    text::lemma_find(text, "/program files (x86)"@);
    text::lemma_find(text, "/programdata"@);
    let k = if text::find(text, "/windows"@) is Some {
        text::find(text, "/windows"@)->0
    } else if text::find(text, "/program files"@) is Some {
        text::find(text, "/program files"@)->0
    } else if text::find(text, "/program files (x86)"@) is Some {
        let k = text::find(text, "/program files (x86)"@)->0;
        let rest = text.skip(k as int);
        assert(rest.take("/program files (x86)"@.len() as int).take("/program files"@.len() as int) =~= rest.take(
            "/program files"@.len() as int,
        ));
        assert("/program files (x86)"@.take("/program files"@.len() as int) =~= "/program files"@);
        k
    } else {
        text::find(text, "/programdata"@)->0
    };
    let rest = text.skip(k as int);
    assert(text::starts_with(rest, "/windows"@) || text::starts_with(rest, "/program files"@) || text::starts_with(
        rest,
        "/programdata"@,
    ));
}

/// A request is taken from the current directory unless it is absolute: names and `..` go behind the
/// directory, and an absolute request stands for itself. Without a current directory the request is
/// all there is.
pub proof fn law_requests_start_here(requested: Seq<Part>, cwd: Seq<Part>, os: Os)
    requires
        !paths::is_verbatim(cwd),
        !paths::is_verbatim(requested),
        cwd.len() > 0,
        paths::no_inner_cur_dir(cwd),
        paths::no_inner_cur_dir(requested),
    ensures
        paths::is_absolute_parts(requested, os) ==> absolute_parts(requested, Some(cwd), os) == requested,
        !paths::is_absolute_parts(requested, os) && (forall|i: int|
            0 <= i < requested.len() ==> #[trigger] requested[i] is Normal || requested[i] is ParentDir) ==> absolute_parts(
            requested,
            Some(cwd),
            os,
        ) == cwd + requested,
        absolute_parts(requested, None, os) == requested,
{
    paths::lemma_without_cur_dirs(requested);
    if !paths::is_absolute_parts(requested, os) && (forall|i: int|
        0 <= i < requested.len() ==> #[trigger] requested[i] is Normal || requested[i] is ParentDir) {
        paths::law_joining(cwd, requested);
        let whole = cwd + requested;
        assert(whole[0] == cwd[0]);
        assert forall|i: int| 0 <= i < whole.len() && !paths::may_be_cur_dir(whole, i) implies !(#[trigger] whole[i] is CurDir) by {
            if i >= cwd.len() {
                assert(requested[i - cwd.len()] is Normal || requested[i - cwd.len()] is ParentDir);
            } else {
                assert(cwd[i] == whole[i]);
            }
        }
        paths::lemma_without_cur_dirs(whole);
    }
}

/// Where nothing is asked for, the install goes next to the launcher; where that is unknown, into the
/// current directory.
pub proof fn law_default_is_next_to_the_launcher(exe: Option<&InstallPath>, dir: InstallPath)
    requires
        call_ensures(default_install_dir, (exe,), dir),
    ensures
        exe matches Some(path) ==> path@.len() > 0 && path@.last() is Normal ==> dir@ == path@.take(path@.len() - 1),
        exe is None ==> dir@ == seq![Part::CurDir],
{
}

/// A path is safe exactly if both sides of any of its slashes are; and a piece without a slash is
/// safe exactly if it is a name that no platform takes for anything else.
#[verifier::spinoff_prover]
pub proof fn law_safety_is_judged_piece_by_piece(a: Seq<char>, b: Seq<char>)
    ensures
        is_safe(a.push('/') + b) <==> is_safe(a) && is_safe(b),
        !a.contains('/') ==> (is_safe(a) <==> a.len() > 0 && a != "."@ && a != ".."@ && !a.contains('\\') && !a.contains(
            ':',
        )),
{
    let s = a.push('/') + b;
    text::law_pieces_of_joined_texts(a, b, '/');
    lemma_contains_either_side(a, b, '\\');
    lemma_contains_either_side(a, b, ':');
    lemma_first_piece(a);
    lemma_first_piece(b);
    lemma_first_piece(s);
    let pa = text::pieces(a, '/');
    let pb = text::pieces(b, '/');
    let ps = text::pieces(s, '/');
    assert forall|i: int| 0 <= i < pa.len() implies ps[i] == pa[i] by {}
    assert forall|i: int| 0 <= i < pb.len() implies ps[pa.len() + i] == pb[i] by {}
    if is_safe(s) {
        assert forall|i: int| 0 <= i < pa.len() implies is_name(#[trigger] pa[i]) by {
            assert(is_name(ps[i]));
        }
        assert forall|i: int| 0 <= i < pb.len() implies is_name(#[trigger] pb[i]) by {
            assert(is_name(ps[pa.len() + i]));
        }
        assert(is_name(pa[0]));
        assert(is_name(pb[0]));
    }
    if is_safe(a) && is_safe(b) {
        assert forall|i: int| 0 <= i < ps.len() implies is_name(#[trigger] ps[i]) by {
            if i < pa.len() {
                assert(is_name(pa[i]));
            } else {
                assert(is_name(pb[i - pa.len()]));
            }
        }
        assert(s[0] == a[0]);
    }
    if !a.contains('/') {
        assert(pa == seq![a]);
        if a.len() > 0 {
            assert(a.contains(a[0]));
        }
        if is_safe(a) {
            assert(is_name(pa[0]));
        }
    }
}

proof fn lemma_contains_either_side(a: Seq<char>, b: Seq<char>, c: char)
    requires
        c != '/',
    ensures
        (a.push('/') + b).contains(c) <==> a.contains(c) || b.contains(c),
{
    let s = a.push('/') + b;
    if a.contains(c) {
        let k = choose|k: int| 0 <= k < a.len() && a[k] == c;
        assert(s[k] == c);
    }
    if b.contains(c) {
        let k = choose|k: int| 0 <= k < b.len() && b[k] == c;
        assert(s[a.len() + 1 + k] == c);
    }
    if s.contains(c) {
        let k = choose|k: int| 0 <= k < s.len() && s[k] == c;
        if k < a.len() {
            assert(a[k] == c);
        } else {
            assert(b[k - a.len() - 1] == c);
        }
    }
}

/// The first piece of a text is empty exactly if the text is or starts with the separator.
proof fn lemma_first_piece(s: Seq<char>)
    ensures
        text::pieces(s, '/').len() > 0,
        text::pieces(s, '/')[0].len() > 0 <==> s.len() > 0 && s[0] != '/',
{
    text::lemma_first_index(s, '/');
}

/// Nothing that leads out is safe: not a path through `..` at any depth, nor one from the root, nor
/// one with a drive or a backslash in it, nor the empty path.
pub proof fn law_no_way_out_is_safe(a: Seq<char>, b: Seq<char>)
    ensures
        !is_safe(".."@),
        !is_safe(".."@.push('/') + b),
        !is_safe(a.push('/') + ".."@),
        !is_safe(a.push('/') + (".."@.push('/') + b)),
        !is_safe(seq!['/'] + b),
        !is_safe(a.push('\\') + b),
        !is_safe(a.push(':') + b),
        !is_safe(Seq::empty()),
{
    reveal_strlit("..");
    assert(!".."@.contains('/'));
    law_safety_is_judged_piece_by_piece(".."@, b);
    law_safety_is_judged_piece_by_piece(a, ".."@);
    law_safety_is_judged_piece_by_piece(a, ".."@.push('/') + b);
    assert((seq!['/'] + b)[0] == '/');
    assert((a.push('\\') + b)[a.len() as int] == '\\');
    assert((a.push(':') + b)[a.len() as int] == ':');
}

/// A retired path names a file below the install root, piece by piece: a name is an entry of the
/// root, and a longer path goes through its first part to the rest.
pub proof fn law_retired_file_follows_its_path(root: Seq<Part>, a: Seq<char>, b: Seq<char>)
    requires
        is_safe(a),
        is_safe(b),
        if paths::is_verbatim(root) {
            root.len() >= 2
        } else {
            root.len() > 0 && paths::no_inner_cur_dir(root)
        },
    ensures
        !a.contains('/') ==> retired_file(root, a) == root.push(Part::Normal(a)),
        retired_file(root, a.push('/') + b) == retired_file(retired_file(root, a), b),
{
    let s = a.push('/') + b;
    law_safety_is_judged_piece_by_piece(a, b);
    text::law_pieces_of_joined_texts(a, b, '/');
    lemma_retired_names(root, a);
    lemma_retired_names(root, s);
    let na = text::pieces(a, '/').map_values(|s: Seq<char>| Part::Normal(s));
    let nb = text::pieces(b, '/').map_values(|s: Seq<char>| Part::Normal(s));
    let ns = text::pieces(s, '/').map_values(|s: Seq<char>| Part::Normal(s));
    assert(ns =~= na + nb);
    let dir = root + na;
    assert(dir[0] == root[0]);
    if !paths::is_verbatim(root) {
        assert forall|i: int| 0 <= i < dir.len() && !paths::may_be_cur_dir(dir, i) implies !(#[trigger] dir[i] is CurDir) by {
            if i < root.len() {
                assert(root[i] == dir[i]);
            }
        }
    }
    lemma_retired_names(dir, b);
    assert(root + ns =~= (root + na) + nb);
    if !a.contains('/') {
        assert(na =~= seq![Part::Normal(a)]);
        assert(root + na =~= root.push(Part::Normal(a)));
    }
}

proof fn lemma_retired_names(root: Seq<Part>, path: Seq<char>)
    requires
        is_safe(path),
        if paths::is_verbatim(root) {
            root.len() >= 2
        } else {
            root.len() > 0 && paths::no_inner_cur_dir(root)
        },
    ensures
        retired_file(root, path) == root + text::pieces(path, '/').map_values(|s: Seq<char>| Part::Normal(s)),
        text::pieces(path, '/').len() > 0,
{
    lemma_safe_is_portable(path);
    let list = text::pieces(path, '/');
    lemma_names_are_parts(list, true);
    let names = paths::portable_parts(path);
    assert(names =~= list.map_values(|s: Seq<char>| Part::Normal(s)));
    paths::lemma_joined_names(root, names);
}

/// Every directory between a retired file and the install root is tried, from the innermost out, and
/// no other is.
#[verifier::spinoff_prover]
pub proof fn law_every_emptied_directory_is_tried(root: Seq<Part>, path: Seq<char>)
    requires
        is_safe(path),
        if paths::is_verbatim(root) {
            root.len() >= 2
        } else {
            root.len() > 0 && paths::no_inner_cur_dir(root)
        },
    ensures
        ({
            let file = retired_file(root, path);
            let dirs = retired_dirs(root, path);
            &&& dirs.len() == file.len() - root.len() - 1
            &&& forall|i: int| 0 <= i < dirs.len() ==> #[trigger] dirs[i] == file.take(file.len() - 1 - i)
        }),
{
    lemma_retired_names(root, path);
    let names = text::pieces(path, '/').map_values(|s: Seq<char>| Part::Normal(s));
    let file = root + names;
    assert(file.last() == names.last());
    assert(file.drop_last() =~= root + names.drop_last());
    assert forall|i: int| 0 <= i < names.drop_last().len() implies #[trigger] names.drop_last()[i] is Normal by {
        assert(names.drop_last()[i] == names[i]);
    }
    lemma_dirs_above(root, names.drop_last());
    let dirs = retired_dirs(root, path);
    assert forall|i: int| 0 <= i < dirs.len() implies #[trigger] dirs[i] == file.take(file.len() - 1 - i) by {
        assert(file.drop_last().take(file.len() - 1 - i) =~= file.take(file.len() - 1 - i));
    }
}

proof fn lemma_dirs_above(root: Seq<Part>, names: Seq<Part>)
    requires
        forall|i: int| 0 <= i < names.len() ==> #[trigger] names[i] is Normal,
    ensures
        dirs_below(root + names, root).len() == names.len(),
        forall|i: int|
            0 <= i < names.len() ==> #[trigger] dirs_below(root + names, root)[i] == (root + names).take(
                root.len() + names.len() - i,
            ),
    decreases names.len(),
{
    let dir = root + names;
    paths::law_paths_are_compared_by_component(root, names);
    paths::law_paths_are_compared_by_component(dir, root);
    if names.len() == 0 {
        assert(dir =~= root);
    } else {
        let outer = root + names.drop_last();
        assert(dir.drop_last() =~= outer);
        assert(dir.last() == names.last());
        assert forall|i: int| 0 <= i < names.drop_last().len() implies #[trigger] names.drop_last()[i] is Normal by {
            assert(names.drop_last()[i] == names[i]);
        }
        lemma_dirs_above(root, names.drop_last());
        let list = dirs_below(dir, root);
        assert(list == seq![dir] + dirs_below(outer, root));
        assert forall|i: int| 0 <= i < names.len() implies #[trigger] list[i] == dir.take(dir.len() - i) by {
            if i == 0 {
                assert(dir.take(dir.len() as int) =~= dir);
            } else {
                assert(list[i] == dirs_below(outer, root)[i - 1]);
                assert(outer.take(outer.len() - (i - 1)) =~= dir.take(dir.len() - i));
            }
        }
    }
}

/// Every retired path is dealt with, in its place: a safe one is deleted below the install root, with
/// the directories that it may leave empty, and any other is left alone and named.
pub proof fn law_retired_paths_are_dealt_with(removed: Vec<String>, root: InstallPath, steps: Vec<Removal>, i: int)
    requires
        call_ensures(prune_removed, (&removed, &root), steps),
        0 <= i < removed@.len(),
    ensures
        steps@.len() == removed@.len(),
        is_safe(removed@[i]@) ==> (steps@[i] matches Removal::Delete { file, dirs } && file@ == retired_file(
            root@,
            removed@[i]@,
        ) && path_views(dirs@) == retired_dirs(root@, removed@[i]@)),
        !is_safe(removed@[i]@) ==> (steps@[i] matches Removal::Ignore { path } && path@ == removed@[i]@),
{
    assert(steps@[i].settles(root@, removed@[i]@));
}

/// What the guard says of a directory, of a request and of a retired path is what is carried out.
pub proof fn law_guard_as_it_is_carried_out(
    dir: InstallPath,
    cwd: Option<&InstallPath>,
    home: Option<&InstallPath>,
    os: Os,
    path: &str,
    said: (Option<String>, InstallPath, bool),
)
    requires
        call_ensures(container_reason_in, (&dir, home), said.0),
        call_ensures(absolutise, (&dir, cwd, os), said.1),
        call_ensures(is_safe_relpath, (path,), said.2),
    ensures
        said.0 matches Some(why) ==> container_reason_text(dir@, view_of(home)) == Some(why@),
        said.0 is None ==> container_reason_text(dir@, view_of(home)) is None,
        said.1@ == absolute_parts(dir@, view_of(cwd), os),
        said.2 <==> is_safe(path@),
{
}

/// With the override a request is taken as it is, whatever speaks against it, and nothing is said.
pub proof fn law_override_is_obeyed(
    requested: InstallPath,
    cwd: Option<&InstallPath>,
    home: Option<&InstallPath>,
    os: Os,
    chosen: (InstallPath, Option<String>),
)
    requires
        call_ensures(resolve_install_dir, (&requested, cwd, home, os, true), chosen),
    ensures
        chosen.0@ == absolute_parts(requested@, view_of(cwd), os),
        chosen.1 is None,
{
}

/// A request that starts with `.` is taken from the current directory like the same without it.
pub proof fn law_leading_dot_changes_nothing(names: Seq<Part>, cwd: Seq<Part>, os: Os)
    requires
        !paths::is_verbatim(cwd),
        paths::is_absolute_parts(cwd, os),
        paths::no_inner_cur_dir(cwd),
        forall|i: int| 0 <= i < names.len() ==> #[trigger] names[i] is Normal || names[i] is ParentDir,
    ensures
        absolute_parts(seq![Part::CurDir] + names, Some(cwd), os) == cwd + names,
{
    let requested = seq![Part::CurDir] + names;
    assert(requested[0] is CurDir);
    assert(cwd + requested =~= cwd.push(Part::CurDir) + names);
    paths::law_dots_go_nowhere(cwd, names);
    let whole = cwd + names;
    assert(whole[0] == cwd[0]);
    assert forall|i: int| 0 <= i < whole.len() && !paths::may_be_cur_dir(whole, i) implies !(#[trigger] whole[i] is CurDir) by {
        if i >= cwd.len() {
            assert(names[i - cwd.len()] is Normal || names[i - cwd.len()] is ParentDir);
        } else {
            assert(cwd[i] == whole[i]);
        }
    }
    paths::lemma_without_cur_dirs(whole);
}

} // verus!
