//! The release manifest: which files make up a release, and how it is launched.
//!
//! Content-addressed: every file is stored on a mirror at `objects/<hh>/<hash>`
//! (hh = first two hex characters of the hash). A patch changes only a few objects.

use crate::string_map::StringMap;
use crate::text::{self, first_bytes, same};
use vstd::prelude::*;
use vstd::string::*;
use vstd::utf8::*;

verus! {

/// The operating system that a build runs on.
#[derive(Debug, Clone, Copy, PartialEq, Eq, Structural)]
pub enum Os {
    Windows,
    Linux,
    MacOs,
    Other,
}

/// The manifest's key for a platform.
pub open spec fn platform_text(os: Os) -> Seq<char> {
    match os {
        Os::Windows => "win64"@,
        Os::Linux => "linux64"@,
        Os::MacOs => "macos64"@,
        Os::Other => "unknown"@,
    }
}

/// Which per-platform slice of the manifest a build for `os` wants.
///
/// The bulk of a release (maps, textures, models, progs) is identical on every platform and is
/// tagged `"all"`; only the engine binary set differs. One manifest therefore describes every
/// platform, and the content-addressed object tree dedupes the shared blobs automatically.
pub fn platform_key(os: Os) -> (r: &'static str)
    ensures
        r@ == platform_text(os),
{
    match os {
        Os::Windows => "win64",
        Os::Linux => "linux64",
        Os::MacOs => "macos64",
        Os::Other => "unknown",
    }
}

/// Fallback game binary when the game is launched without consulting a manifest.
pub fn default_exec_cmd(os: Os) -> (r: &'static str)
    ensures
        r@ == if os == Os::Windows { "fteqw64.exe"@ } else { "fteqw-gl64"@ },
{
    match os {
        Os::Windows => "fteqw64.exe",
        _ => "fteqw-gl64",
    }
}

/// The object layout of a manifest that names none.
pub fn default_layout() -> (r: String)
    ensures
        r@ == "objects/{h0h1}/{hash}"@,
{
    "objects/{h0h1}/{hash}".to_owned()
}

/// The platform of a file entry that names none: it is for everyone.
pub fn default_platform() -> (r: String)
    ensures
        r@ == "all"@,
{
    "all".to_owned()
}

/// A launch command.
#[derive(Debug)]
pub struct Exec {
    pub cmd: String,
    pub args: Vec<String>,
}

impl Clone for Exec {
    fn clone(&self) -> (r: Self)
        ensures
            r.cmd == self.cmd,
            r.args@ == self.args@,
    {
        let args = self.args.clone();
        assert(args@ =~= self.args@);
        Exec { cmd: self.cmd.clone(), args }
    }
}

/// How the game is launched without consulting a manifest.
pub fn default_exec(os: Os) -> (r: Exec)
    ensures
        r.cmd@ == if os == Os::Windows {
            "fteqw64.exe"@
        } else {
            "fteqw-gl64"@
        },
        text::views(r.args@) == seq!["-manifest"@, "default.fmf"@],
{
    let mut args: Vec<String> = Vec::new();
    args.push("-manifest".to_owned());
    args.push("default.fmf".to_owned());
    assert(text::views(args@) =~= seq!["-manifest"@, "default.fmf"@]);
    Exec { cmd: default_exec_cmd(os).to_owned(), args }
}

/// One file of a release.
#[derive(Debug)]
pub struct FileEntry {
    /// Install-root-relative path, forward slashes (e.g. "quakers/csprogs.dat").
    pub path: String,
    pub size: u64,
    pub hash: String,
    pub component: String,
    /// "all" (shared game content) or a platform key like "win64" / "linux64".
    pub platform: String,
    /// Needs the executable bit on unix (the engine binaries). Ignored on Windows.
    pub executable: bool,
}

impl Clone for FileEntry {
    fn clone(&self) -> (r: Self)
        ensures
            r == *self,
    {
        FileEntry {
            path: self.path.clone(),
            size: self.size,
            hash: self.hash.clone(),
            component: self.component.clone(),
            platform: self.platform.clone(),
            executable: self.executable,
        }
    }
}

/// A release.
pub struct Manifest {
    pub schema: u32,
    pub channel: String,
    pub version: String,
    pub created_utc: String,
    /// "blake2b-256" or "blake3" — the launcher hashes with whatever this says.
    pub hash_algo: String,
    pub launcher_version: String,
    pub install_root_name: String,
    /// The Windows launch command; `exec_by_platform` wins when it has an entry.
    pub exec_default: Exec,
    /// Launch command per platform key ("win64" / "linux64" / ...).
    pub exec_by_platform: StringMap<Exec>,
    pub mirrors: Vec<String>,
    pub object_layout: String,
    pub total_files: u64,
    pub total_bytes: u64,
    pub files: Vec<FileEntry>,
    /// Paths of earlier releases that this one has retired.
    pub removed: Vec<String>,
}

/// The directory of an object: the first two bytes of its hash, "00" for a shorter hash.
pub open spec fn object_dir(hash: Seq<char>) -> Seq<char> {
    if encode_utf8(hash).len() >= 2 {
        text::byte_prefix(hash, 2)
    } else {
        "00"@
    }
}

/// Where a mirror keeps the object with this hash.
pub open spec fn object_path(hash: Seq<char>) -> Seq<char> {
    "objects/"@ + object_dir(hash) + "/"@ + hash
}

/// Whether the first two bytes of a hash are whole characters, as they are in every hex text.
pub open spec fn has_object_path(hash: Seq<char>) -> bool {
    encode_utf8(hash).len() >= 2 ==> is_char_boundary(encode_utf8(hash), 2)
}

/// A hash of ASCII characters, two at least, is stored at `objects/<hh>/<hash>`, `hh` being its
/// first two characters.
pub proof fn law_object_layout(hash: Seq<char>)
    requires
        is_ascii_chars(hash),
        hash.len() >= 2,
    ensures
        has_object_path(hash),
        object_path(hash) == "objects/"@ + hash.take(2) + "/"@ + hash,
{
    text::lemma_ascii_prefix(hash, 2);
}

impl FileEntry {
    /// Whether a build for `os` installs this file.
    pub open spec fn is_wanted(&self, os: Os) -> bool {
        self.platform@ == "all"@ || self.platform@ == platform_text(os)
    }

    /// Should a build for `os` download the file at all?
    pub fn wanted(&self, os: Os) -> (r: bool)
        ensures
            r == self.is_wanted(os),
    {
        same(self.platform.as_str(), "all") || same(self.platform.as_str(), platform_key(os))
    }

    /// Mirror-relative object path, e.g. "objects/37/373c05...".
    pub fn object_rel(&self) -> (r: String)
        requires
            has_object_path(self.hash@),
        ensures
            r@ == object_path(self.hash@),
    {
        let hash = self.hash.as_str();
        let mut r = "objects/".to_owned();
        if hash.as_bytes().len() >= 2 {
            r.append(first_bytes(hash, 2));
        } else {
            r.append("00");
        }
        r.append("/");
        r.append(hash);
        r
    }
}

/// The entries that a build for `os` installs, in manifest order.
pub open spec fn wanted_files(files: Seq<FileEntry>, os: Os) -> Seq<FileEntry> {
    files.filter(|f: FileEntry| f.is_wanted(os))
}

/// The bytes that `files` hold together.
pub open spec fn total_size(files: Seq<FileEntry>) -> nat
    decreases files.len(),
{
    if files.len() == 0 {
        0
    } else {
        total_size(files.drop_last()) + files.last().size as nat
    }
}

/// Filtering one more entry.
pub proof fn lemma_filter_step(files: Seq<FileEntry>, i: int, keep: spec_fn(FileEntry) -> bool)
    requires
        0 <= i < files.len(),
    ensures
        files.take(i + 1).filter(keep) == if keep(files[i]) {
            files.take(i).filter(keep).push(files[i])
        } else {
            files.take(i).filter(keep)
        },
{
    reveal(Seq::filter);
    assert(files.take(i + 1).drop_last() =~= files.take(i));
    assert(files.take(i + 1).last() == files[i]);
}

impl Manifest {
    /// The launch command for `os`, falling back to the default one.
    pub open spec fn launch_command(&self, os: Os) -> Exec {
        if self.exec_by_platform@.contains_key(platform_text(os)) {
            self.exec_by_platform@[platform_text(os)]
        } else {
            self.exec_default
        }
    }

    /// Only the entries that a build for `os` installs.
    pub fn files_for_platform(&self, os: Os) -> (r: Vec<&FileEntry>)
        ensures
            r@.unref() == wanted_files(self.files@, os),
    {
        let mut r: Vec<&FileEntry> = Vec::new();
        let ghost keep = |f: FileEntry| f.is_wanted(os);
        let mut i: usize = 0;
        assert(self.files@.take(0).filter(keep) =~= Seq::empty()) by {
            reveal(Seq::filter);
        }
        assert(r@.unref() =~= Seq::empty());
        while i < self.files.len()
            invariant
                i <= self.files.len(),
                keep == (|f: FileEntry| f.is_wanted(os)),
                r@.unref() == self.files@.take(i as int).filter(keep),
            decreases self.files.len() - i,
        {
            proof {
                lemma_filter_step(self.files@, i as int, keep);
            }
            let f = &self.files[i];
            if f.wanted(os) {
                let ghost before = r@.unref();
                r.push(f);
                assert(r@.unref() =~= before.push(*f));
            }
            i += 1;
        }
        assert(self.files@.take(i as int) =~= self.files@);
        r
    }

    /// The launch command for `os`, falling back to the default one.
    pub fn exec_for_platform(&self, os: Os) -> (r: &Exec)
        ensures
            *r == self.launch_command(os),
    {
        match self.exec_by_platform.get(platform_key(os)) {
            Some(e) => e,
            None => &self.exec_default,
        }
    }

    /// How many files a build for `os` installs, and how many bytes they hold together. A
    /// manifest describes every platform, so its own totals count the other engines too.
    /// `None` when the sum does not fit in 64 bits.
    pub fn platform_totals(&self, os: Os) -> (r: Option<(u64, u64)>)
        ensures
            match r {
                Some((files, bytes)) => files == wanted_files(self.files@, os).len() && bytes
                    == total_size(wanted_files(self.files@, os)),
                None => total_size(wanted_files(self.files@, os)) > u64::MAX,
            },
    {
        let wanted = self.files_for_platform(os);
        let ghost all = wanted@.unref();
        let mut bytes: u64 = 0;
        let mut i: usize = 0;
        while i < wanted.len()
            invariant
                i <= wanted.len(),
                all == wanted@.unref(),
                bytes == total_size(all.take(i as int)),
                all == wanted_files(self.files@, os),
            decreases wanted.len() - i,
        {
            proof {
                assert(all.take(i + 1).drop_last() =~= all.take(i as int));
                assert(all.take(i + 1).last() == *wanted@[i as int]);
            }
            match bytes.checked_add(wanted[i].size) {
                Some(sum) => bytes = sum,
                None => {
                    proof {
                        lemma_total_size_grows(all, i + 1);
                    }
                    return None;
                },
            }
            i += 1;
        }
        assert(all.take(i as int) =~= all);
        Some((wanted.len() as u64, bytes))
    }
}

/// A part of a list holds no more bytes than the list.
pub proof fn lemma_total_size_grows(files: Seq<FileEntry>, n: int)
    requires
        0 <= n <= files.len(),
    ensures
        total_size(files.take(n)) <= total_size(files),
    decreases files.len(),
{
    if n < files.len() {
        lemma_total_size_grows(files.drop_last(), n);
        assert(files.drop_last().take(n) =~= files.take(n));
    } else {
        assert(files.take(n) =~= files);
    }
}

/// Supporting another platform costs a platform nothing: entries for others do not change what it
/// installs.
pub proof fn law_other_platforms_cost_nothing(files: Seq<FileEntry>, more: Seq<FileEntry>, os: Os)
    requires
        forall|i: int| 0 <= i < more.len() ==> !(#[trigger] more[i]).is_wanted(os),
    ensures
        wanted_files(files + more, os) == wanted_files(files, os),
        total_size(wanted_files(files + more, os)) == total_size(wanted_files(files, os)),
    decreases more.len(),
{
    let keep = |f: FileEntry| f.is_wanted(os);
    reveal(Seq::filter);
    if more.len() > 0 {
        assert forall|i: int| 0 <= i < more.drop_last().len() implies !(#[trigger] more.drop_last()[i]).is_wanted(os) by {
            assert(more.drop_last()[i] == more[i]);
        }
        law_other_platforms_cost_nothing(files, more.drop_last(), os);
        assert((files + more).drop_last() =~= files + more.drop_last());
        assert((files + more).last() == more[more.len() - 1]);
        assert(!keep((files + more).last()));
    } else {
        assert(files + more =~= files);
    }
}

/// A file is for a platform exactly if it is tagged for all of them or for that one. Nothing else
/// about it matters: files with the same tag are wanted alike.
pub proof fn law_platform_tag_decides(a: FileEntry, b: FileEntry, os: Os, wanted: (bool, bool))
    requires
        call_ensures(FileEntry::wanted, (&a, os), wanted.0),
        call_ensures(FileEntry::wanted, (&b, os), wanted.1),
    ensures
        a.platform@ == b.platform@ ==> wanted.0 == wanted.1 && a.is_wanted(os) == b.is_wanted(os),
        wanted.0 == a.is_wanted(os),
        a.platform@ == "all"@ ==> wanted.0,
        a.platform@ == "win64"@ ==> (wanted.0 <==> os is Windows),
        a.platform@ == "linux64"@ ==> (wanted.0 <==> os is Linux),
        a.platform@ == "macos64"@ ==> (wanted.0 <==> os is MacOs),
        wanted.0 && os is Windows ==> a.platform@ == "all"@ || a.platform@ == "win64"@,
        wanted.0 && os is Linux ==> a.platform@ == "all"@ || a.platform@ == "linux64"@,
        wanted.0 && os is MacOs ==> a.platform@ == "all"@ || a.platform@ == "macos64"@,
        wanted.0 && os is Other ==> a.platform@ == "all"@ || a.platform@ == "unknown"@,
{
    lemma_platform_texts_differ();
}

proof fn lemma_platform_texts_differ()
    ensures
        "all"@.len() == 3,
        "win64"@.len() == 5,
        "linux64"@.len() == 7,
        "linux64"@[0] == 'l',
        "macos64"@.len() == 7,
        "macos64"@[0] == 'm',
        "unknown"@.len() == 7,
        "unknown"@[0] == 'u',
{
    reveal_strlit("all");
    reveal_strlit("win64");
    reveal_strlit("linux64");
    reveal_strlit("macos64");
    reveal_strlit("unknown");
}

/// Different platforms have different keys, and none is the tag for all of them.
pub proof fn law_platform_keys_differ(a: Os, b: Os, keys: (&'static str, &'static str))
    requires
        call_ensures(platform_key, (a,), keys.0),
        call_ensures(platform_key, (b,), keys.1),
    ensures
        keys.0@ == keys.1@ <==> a == b,
        keys.0@ != "all"@,
{
    lemma_platform_texts_differ();
}

/// The files of a platform are those of the manifest that are tagged for all platforms or for it,
/// whatever else they are: an entry is among them exactly if it is in the manifest and so tagged.
pub proof fn law_platform_slice_is_exact(files: Seq<FileEntry>, os: Os, entry: FileEntry)
    ensures
        wanted_files(files, os).contains(entry) <==> files.contains(entry) && (entry.platform@ == "all"@
            || entry.platform@ == match os {
            Os::Windows => "win64"@,
            Os::Linux => "linux64"@,
            Os::MacOs => "macos64"@,
            Os::Other => "unknown"@,
        }),
{
    let keep = |f: FileEntry| f.is_wanted(os);
    let kept = files.filter(keep);
    if kept.contains(entry) {
        files.lemma_filter_contains_rev(keep, entry);
        let k = choose|k: int| 0 <= k < kept.len() && kept[k] == entry;
        files.lemma_filter_pred(keep, k);
    }
    if files.contains(entry) && keep(entry) {
        let i = choose|i: int| 0 <= i < files.len() && files[i] == entry;
        files.lemma_filter_contains(keep, i);
    }
}

/// A manifest in two parts has the files of the one and then those of the other: the order of the
/// manifest is kept, and nothing is dropped or doubled.
pub proof fn law_platform_slice_keeps_the_order(a: Seq<FileEntry>, b: Seq<FileEntry>, os: Os)
    ensures
        wanted_files(a + b, os) == wanted_files(a, os) + wanted_files(b, os),
        total_size(wanted_files(a + b, os)) == total_size(wanted_files(a, os)) + total_size(wanted_files(b, os)),
        a.len() == 1 ==> wanted_files(a, os) == if a[0].is_wanted(os) {
            a
        } else {
            Seq::empty()
        },
{
    let keep = |f: FileEntry| f.is_wanted(os);
    Seq::filter_distributes_over_add(a, b, keep);
    law_sizes_add_up(wanted_files(a, os), wanted_files(b, os));
    if a.len() == 1 {
        reveal_with_fuel(Seq::filter, 2);
        assert(a.drop_last() =~= Seq::empty());
        assert(a.filter(keep) =~= if keep(a[0]) {
            a
        } else {
            Seq::empty()
        });
    }
}

/// Two lists hold together what each of them holds, and one file holds its size.
pub proof fn law_sizes_add_up(a: Seq<FileEntry>, b: Seq<FileEntry>)
    ensures
        total_size(a + b) == total_size(a) + total_size(b),
        a.len() == 1 ==> total_size(a) == a[0].size,
        a.len() == 0 ==> total_size(a) == 0,
    decreases b.len(),
{
    if a.len() == 1 {
        assert(a.drop_last() =~= Seq::empty());
        assert(total_size(a.drop_last()) == 0);
    }
    if b.len() == 0 {
        assert(a + b =~= a);
    } else {
        law_sizes_add_up(a, b.drop_last());
        assert((a + b).drop_last() =~= a + b.drop_last());
    }
}

/// The launch command of a platform is the one that the manifest has for its key, and the default
/// one only where there is none; commands for other platforms do not matter.
pub proof fn law_launch_command_is_the_platforms(manifest: Manifest, os: Os, command: Exec)
    requires
        call_ensures(Manifest::exec_for_platform, (&manifest, os), &command),
    ensures
        ({
            let key = match os {
                Os::Windows => "win64"@,
                Os::Linux => "linux64"@,
                Os::MacOs => "macos64"@,
                Os::Other => "unknown"@,
            };
            &&& manifest.exec_by_platform@.contains_key(key) ==> command == manifest.exec_by_platform@[key]
            &&& !manifest.exec_by_platform@.contains_key(key) ==> command == manifest.exec_default
        }),
{
}

/// Without a manifest the game is launched by its usual name with its own settings: the Windows
/// binary on Windows and the other one everywhere else.
pub proof fn law_default_launch(os: Os, cmd: &'static str, exec: Exec)
    requires
        call_ensures(default_exec_cmd, (os,), cmd),
        call_ensures(default_exec, (os,), exec),
    ensures
        os is Windows ==> cmd@ == "fteqw64.exe"@,
        !(os is Windows) ==> cmd@ == "fteqw-gl64"@,
        exec.cmd@ == cmd@,
        exec.args@.len() == 2,
        exec.args@[0]@ == "-manifest"@,
        exec.args@[1]@ == "default.fmf"@,
{
    let args = text::views(exec.args@);
    assert(args =~= seq!["-manifest"@, "default.fmf"@]);
    assert(args.len() == exec.args@.len());
    assert(args[0] == exec.args@[0]@);
    assert(args[1] == exec.args@[1]@);
}

/// What a manifest leaves out is filled in: the layout of the objects, and that a file is for
/// every platform.
pub proof fn law_manifest_defaults(entry: FileEntry, os: Os, layout: String, platform: String)
    requires
        call_ensures(default_layout, (), layout),
        call_ensures(default_platform, (), platform),
        entry.platform@ == platform@,
    ensures
        layout@ == "objects/{h0h1}/{hash}"@,
        entry.is_wanted(os),
{
}

/// Where an object lies depends on its hash alone, and the hash is the last part of it: entries with
/// the same content share an object, and different hashes have different objects. A hash that is
/// too short for a directory of its own lies in `00`.
pub proof fn law_objects_are_content_addressed(a: FileEntry, b: FileEntry, paths: (String, String))
    requires
        call_ensures(FileEntry::object_rel, (&a,), paths.0),
        call_ensures(FileEntry::object_rel, (&b,), paths.1),
        is_ascii_chars(a.hash@),
        is_ascii_chars(b.hash@),
    ensures
        a.hash@ == b.hash@ <==> paths.0@ == paths.1@,
        a.hash@.len() >= 2 ==> paths.0@ == "objects/"@ + a.hash@.take(2) + "/"@ + a.hash@,
        a.hash@.len() < 2 ==> paths.0@ == "objects/00/"@ + a.hash@,
{
    lemma_object_path(a.hash@);
    lemma_object_path(b.hash@);
    let p = object_path(a.hash@);
    let q = object_path(b.hash@);
    assert(p.skip(11) =~= a.hash@);
    assert(q.skip(11) =~= b.hash@);
}

proof fn lemma_object_path(hash: Seq<char>)
    requires
        is_ascii_chars(hash),
    ensures
        object_path(hash).len() == 11 + hash.len(),
        object_path(hash).skip(11) == hash,
        hash.len() >= 2 ==> object_path(hash) == "objects/"@ + hash.take(2) + "/"@ + hash,
        hash.len() < 2 ==> object_path(hash) == "objects/00/"@ + hash,
{
    reveal_strlit("objects/");
    reveal_strlit("00");
    reveal_strlit("/");
    reveal_strlit("objects/00/");
    text::lemma_ascii_prefix(hash, 0);
    if hash.len() >= 2 {
        text::lemma_ascii_prefix(hash, 2);
    } else {
        assert("objects/"@ + "00"@ + "/"@ =~= "objects/00/"@);
    }
    assert(object_path(hash).skip(11) =~= hash);
}

/// The files of a platform, as they are handed out: every entry that is tagged for all platforms or for this one, and no
/// other; the totals are the number of them and their bytes.
pub proof fn law_platform_files_are_handed_out(
    manifest: Manifest,
    os: Os,
    files: Vec<&FileEntry>,
    totals: Option<(u64, u64)>,
    entry: FileEntry,
)
    requires
        call_ensures(Manifest::files_for_platform, (&manifest, os), files),
        call_ensures(Manifest::platform_totals, (&manifest, os), totals),
    ensures
        files@.unref() == wanted_files(manifest.files@, os),
        files@.unref().contains(entry) <==> manifest.files@.contains(entry) && entry.is_wanted(os),
        totals matches Some((n, bytes)) ==> n == files@.len() && bytes == total_size(files@.unref()),
        totals is None <==> total_size(files@.unref()) > u64::MAX,
{
    law_platform_slice_is_exact(manifest.files@, os, entry);
}

} // verus!
