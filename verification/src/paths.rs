//! File system paths as lists of components, the way `std::path` takes a path apart.

use crate::manifest::Os;
use crate::text::{self, begins_with, chars_of, forward_slashes, same};
use vstd::prelude::*;
use vstd::string::*;

verus! {

/// One component of a path.
#[derive(Debug)]
pub enum Component {
    /// A Windows prefix such as `C:` or `\\server\share`.
    Prefix(String),
    /// The separator at the start of a rooted path.
    RootDir,
    /// A leading `.`.
    CurDir,
    /// A `..`.
    ParentDir,
    /// A name.
    Normal(String),
}

/// What a component holds.
pub enum Part {
    Prefix(Seq<char>),
    RootDir,
    CurDir,
    ParentDir,
    Normal(Seq<char>),
}

impl View for Component {
    type V = Part;

    open spec fn view(&self) -> Part {
        match *self {
            Component::Prefix(s) => Part::Prefix(s@),
            Component::RootDir => Part::RootDir,
            Component::CurDir => Part::CurDir,
            Component::ParentDir => Part::ParentDir,
            Component::Normal(s) => Part::Normal(s@),
        }
    }
}

impl Clone for Component {
    fn clone(&self) -> (r: Self)
        ensures
            r == *self,
    {
        match self {
            Component::Prefix(s) => Component::Prefix(s.clone()),
            Component::RootDir => Component::RootDir,
            Component::CurDir => Component::CurDir,
            Component::ParentDir => Component::ParentDir,
            Component::Normal(s) => Component::Normal(s.clone()),
        }
    }
}

/// The upper-case form of an ASCII letter; any other character stays as it is.
pub open spec fn upper_letter(c: char) -> char {
    if 'a' <= c <= 'z' {
        ((c as u32) - 32) as char
    } else {
        c
    }
}

/// What counts of a prefix when paths are compared. A drive letter counts without its case: `c:`
/// is the same drive as `C:`, and `\\?\c:` the same as `\\?\C:`. Which separators a network or
/// device prefix is written with does not count: `\\server\share` is `//server/share`. In a
/// verbatim prefix the separators are what makes it one, so there they stay.
pub open spec fn comparable_prefix(prefix: Seq<char>) -> Seq<char> {
    let slashed = text::replaced(prefix, '\\', '/');
    if text::starts_with(prefix, "\\\\?\\"@) {
        if prefix.len() == 6 && prefix[5] == ':' {
            prefix.update(4, upper_letter(prefix[4]))
        } else {
            prefix
        }
    } else if slashed.len() == 2 && slashed[1] == ':' {
        slashed.update(0, upper_letter(slashed[0]))
    } else {
        slashed
    }
}

/// What counts of a component when paths are compared.
pub open spec fn compared(part: Part) -> Part {
    match part {
        Part::Prefix(s) => Part::Prefix(comparable_prefix(s)),
        other => other,
    }
}

/// What counts of a path when paths are compared.
pub open spec fn compared_parts(parts: Seq<Part>) -> Seq<Part> {
    parts.map_values(|p: Part| compared(p))
}

/// Whether two lists of components name the same path.
pub open spec fn same_path(a: Seq<Part>, b: Seq<Part>) -> bool {
    compared_parts(a) == compared_parts(b)
}

/// Whether `path` is `base` or lies below it.
pub open spec fn lies_within(base: Seq<Part>, path: Seq<Part>) -> bool {
    compared_parts(base).is_prefix_of(compared_parts(path))
}

fn upper(c: char) -> (r: char)
    ensures
        r == upper_letter(c),
{
    if 'a' <= c && c <= 'z' {
        ((c as u8) - 32) as char
    } else {
        c
    }
}

/// The characters that count of a prefix.
fn compared_prefix(prefix: &str) -> (r: Vec<char>)
    ensures
        r@ == comparable_prefix(prefix@),
{
    let verbatim: bool = begins_with(prefix, "\\\\?\\");
    let mut v = if verbatim {
        chars_of(prefix)
    } else {
        chars_of(forward_slashes(prefix).as_str())
    };
    if verbatim && v.len() == 6 && v[5] == ':' {
        let c: char = upper(v[4]);
        v.set(4, c);
    } else if !verbatim && v.len() == 2 && v[1] == ':' {
        let c: char = upper(v[0]);
        v.set(0, c);
    }
    v
}

fn same_prefix(a: &str, b: &str) -> (r: bool)
    ensures
        r == (comparable_prefix(a@) == comparable_prefix(b@)),
{
    let x = compared_prefix(a);
    let y = compared_prefix(b);
    if x.len() != y.len() {
        return false;
    }
    let mut i: usize = 0;
    while i < x.len()
        invariant
            i <= x.len(),
            x.len() == y.len(),
            x@ == comparable_prefix(a@),
            y@ == comparable_prefix(b@),
            forall|j: int| 0 <= j < i ==> x@[j] == y@[j],
        decreases x.len() - i,
    {
        if x[i] != y[i] {
            assert(x@ != y@);
            return false;
        }
        i += 1;
    }
    assert(x@ =~= y@);
    true
}

impl Component {
    /// Whether two components name the same, drive letters without regard to case.
    pub fn equals(&self, other: &Component) -> (r: bool)
        ensures
            r == (compared(self@) == compared(other@)),
    {
        match (self, other) {
            (Component::Prefix(a), Component::Prefix(b)) => same_prefix(a.as_str(), b.as_str()),
            (Component::RootDir, Component::RootDir) => true,
            (Component::CurDir, Component::CurDir) => true,
            (Component::ParentDir, Component::ParentDir) => true,
            (Component::Normal(a), Component::Normal(b)) => same(a.as_str(), b.as_str()),
            _ => false,
        }
    }
}

/// A path, taken apart into its components.
#[derive(Debug)]
pub struct InstallPath {
    pub components: Vec<Component>,
}

impl View for InstallPath {
    type V = Seq<Part>;

    open spec fn view(&self) -> Seq<Part> {
        self.components@.map_values(|c: Component| c@)
    }
}

/// Whether every platform takes `text` apart in the same way: it holds neither a backslash nor
/// a colon, and does not start like a network share.
pub open spec fn is_portable(text: Seq<char>) -> bool {
    !text.contains('\\') && !text.contains(':') && !text::starts_with(text, "//"@)
}

/// The components that the pieces between separators stand for. Empty pieces and `.` stand for
/// none; a `.` that opens a relative path is kept.
pub open spec fn parts_of_pieces(list: Seq<Seq<char>>, opening: bool) -> Seq<Part>
    decreases list.len(),
{
    if list.len() == 0 {
        Seq::empty()
    } else {
        let rest = parts_of_pieces(list.drop_first(), false);
        if list[0].len() == 0 {
            rest
        } else if list[0] == "."@ {
            if opening {
                seq![Part::CurDir] + rest
            } else {
                rest
            }
        } else if list[0] == ".."@ {
            seq![Part::ParentDir] + rest
        } else {
            seq![Part::Normal(list[0])] + rest
        }
    }
}

/// The components of a portable path.
pub open spec fn portable_parts(text: Seq<char>) -> Seq<Part> {
    if text::starts_with(text, "/"@) {
        seq![Part::RootDir] + parts_of_pieces(text::pieces(text, '/'), false)
    } else {
        parts_of_pieces(text::pieces(text, '/'), true)
    }
}

/// `std::path::Path::components`: the components of a path. Stated where all platforms agree:
/// repeated and trailing separators count for nothing, and so does `.` except at the start.
/// Prefixes and backslashes are the platform's own affair, and nothing is claimed of them.
#[verifier::external_body]
fn components_of(text: &str) -> (r: Vec<Component>)
    ensures
        is_portable(text@) ==> r@.map_values(|c: Component| c@) == portable_parts(text@),
{
    std::path::Path::new(text)
        .components()
        .map(|c| match c {
            std::path::Component::Prefix(p) => Component::Prefix(p.as_os_str().to_string_lossy().into_owned()),
            std::path::Component::RootDir => Component::RootDir,
            std::path::Component::CurDir => Component::CurDir,
            std::path::Component::ParentDir => Component::ParentDir,
            std::path::Component::Normal(s) => Component::Normal(s.to_string_lossy().into_owned()),
        })
        .collect()
}

/// The text of a component list, with `/` for separators. A root and a prefix are not followed
/// by a separator of their own.
pub open spec fn path_text(parts: Seq<Part>) -> Seq<char>
    decreases parts.len(),
{
    if parts.len() == 0 {
        Seq::empty()
    } else {
        let front = path_text(parts.drop_last());
        if parts.len() == 1 || parts[parts.len() - 2] is RootDir || parts[parts.len() - 2] is Prefix
            || parts.last() is RootDir {
            front + part_text(parts.last())
        } else {
            front + "/"@ + part_text(parts.last())
        }
    }
}

pub open spec fn part_text(part: Part) -> Seq<char> {
    match part {
        Part::Prefix(s) => s,
        Part::RootDir => "/"@,
        Part::CurDir => "."@,
        Part::ParentDir => ".."@,
        Part::Normal(s) => s,
    }
}

/// Whether the components name a place without help from a current directory. On Windows that
/// takes a prefix and a root, or a verbatim prefix, which implies its root; elsewhere a root.
pub open spec fn is_absolute_parts(parts: Seq<Part>, os: Os) -> bool {
    if os == Os::Windows {
        is_verbatim(parts) || (parts.len() >= 2 && parts[0] is Prefix && parts[1] is RootDir)
    } else {
        parts.len() >= 1 && parts[0] is RootDir
    }
}

/// Whether a `.` at position `i` counts as a component: at the start of a path, or of what follows
/// a drive (`C:.`).
pub open spec fn may_be_cur_dir(parts: Seq<Part>, i: int) -> bool {
    i == 0 || (i == 1 && parts[0] is Prefix)
}

/// The components without `.`, except where it counts as one.
pub open spec fn without_cur_dirs(parts: Seq<Part>) -> Seq<Part>
    decreases parts.len(),
{
    if parts.len() == 0 {
        Seq::empty()
    } else if parts.last() is CurDir && !may_be_cur_dir(parts, parts.len() - 1) {
        without_cur_dirs(parts.drop_last())
    } else {
        without_cur_dirs(parts.drop_last()).push(parts.last())
    }
}

/// A verbatim path with a root: a bare prefix gets one when anything is put behind it.
pub open spec fn rooted(parts: Seq<Part>) -> Seq<Part> {
    if parts.len() == 1 {
        parts.push(Part::RootDir)
    } else {
        parts
    }
}

/// `more` appended to a verbatim path: `.` is dropped, `..` takes back a name, and a root goes
/// back to the prefix.
pub open spec fn appended_verbatim(base: Seq<Part>, more: Seq<Part>) -> Seq<Part>
    decreases more.len(),
{
    if more.len() == 0 {
        base
    } else {
        let front = appended_verbatim(base, more.drop_last());
        match more.last() {
            Part::CurDir => front,
            Part::RootDir => if front.len() > 1 {
                front.take(1).push(Part::RootDir)
            } else {
                front.push(Part::RootDir)
            },
            Part::ParentDir => if front.len() > 0 && front.last() is Normal {
                front.drop_last()
            } else {
                front
            },
            other => rooted(front).push(other),
        }
    }
}

/// Whether a path starts with a prefix that switches path processing off (`\\?\`).
pub open spec fn is_verbatim(parts: Seq<Part>) -> bool {
    parts.len() > 0 && (parts[0] matches Part::Prefix(s) && text::starts_with(s, "\\\\?\\"@))
}

/// The path `more`, as seen from the directory `base`.
pub open spec fn joined(base: Seq<Part>, more: Seq<Part>) -> Seq<Part> {
    if more.len() > 0 && more[0] is Prefix {
        more
    } else if is_verbatim(base) {
        if more.len() == 0 {
            rooted(base)
        } else {
            appended_verbatim(base, more)
        }
    } else if more.len() > 0 && more[0] is RootDir {
        if base.len() > 0 && base[0] is Prefix {
            seq![base[0]] + more
        } else {
            more
        }
    } else {
        without_cur_dirs(base + more)
    }
}

/// The entry `name` of the directory `parts`.
pub open spec fn child_parts(parts: Seq<Part>, name: Seq<char>) -> Seq<Part> {
    if is_verbatim(parts) {
        rooted(parts).push(Part::Normal(name))
    } else {
        parts.push(Part::Normal(name))
    }
}

/// The path put together again from its components.
pub open spec fn recollected(parts: Seq<Part>) -> Seq<Part> {
    if is_verbatim(parts) {
        appended_verbatim(parts.take(1), parts.skip(1))
    } else {
        without_cur_dirs(parts)
    }
}

/// The directory that a path lies in. A root and a prefix lie in none, nor does the empty path.
pub open spec fn parent_parts(parts: Seq<Part>) -> Option<Seq<Part>> {
    if parts.len() == 0 || parts.last() is RootDir || parts.last() is Prefix {
        None
    } else {
        Some(parts.drop_last())
    }
}

/// The components of a list of components.
spec fn parts_of(list: Seq<Component>) -> Seq<Part> {
    list.map_values(|c: Component| c@)
}

impl Clone for InstallPath {
    fn clone(&self) -> (r: Self)
        ensures
            r@ == self@,
    {
        let mut components: Vec<Component> = Vec::new();
        let mut i: usize = 0;
        while i < self.components.len()
            invariant
                i <= self.components.len(),
                components@ == self.components@.take(i as int),
            decreases self.components.len() - i,
        {
            components.push(self.components[i].clone());
            i += 1;
        }
        InstallPath { components }
    }
}

impl InstallPath {
    /// Takes a path apart.
    pub fn parse(text: &str) -> (r: InstallPath)
        ensures
            is_portable(text@) ==> r@ == portable_parts(text@),
    {
        InstallPath { components: components_of(text) }
    }

    /// Whether two paths are the same.
    pub fn equals(&self, other: &InstallPath) -> (r: bool)
        ensures
            r == same_path(self@, other@),
    {
        if self.components.len() != other.components.len() {
            assert(compared_parts(self@).len() != compared_parts(other@).len());
            return false;
        }
        let mut i: usize = 0;
        while i < self.components.len()
            invariant
                i <= self.components.len(),
                self.components.len() == other.components.len(),
                forall|j: int| 0 <= j < i ==> compared_parts(self@)[j] == compared_parts(other@)[j],
            decreases self.components.len() - i,
        {
            if !self.components[i].equals(&other.components[i]) {
                assert(compared_parts(self@)[i as int] != compared_parts(other@)[i as int]);
                return false;
            }
            i += 1;
        }
        assert(compared_parts(self@) =~= compared_parts(other@));
        true
    }

    /// The path as text, with forward slashes between its components.
    pub fn text(&self) -> (r: String)
        ensures
            r@ == path_text(self@),
    {
        let mut r = String::new();
        let mut i: usize = 0;
        while i < self.components.len()
            invariant
                i <= self.components.len(),
                r@ == path_text(self@.take(i as int)),
            decreases self.components.len() - i,
        {
            proof {
                assert(self@.take(i + 1).drop_last() =~= self@.take(i as int));
            }
            let root = match self.components[i] {
                Component::RootDir => true,
                _ => false,
            };
            let closed = i == 0 || root || match self.components[i - 1] {
                Component::RootDir => true,
                Component::Prefix(_) => true,
                _ => false,
            };
            if !closed {
                r.append("/");
            }
            match &self.components[i] {
                Component::Prefix(s) => r.append(s.as_str()),
                Component::RootDir => r.append("/"),
                Component::CurDir => r.append("."),
                Component::ParentDir => r.append(".."),
                Component::Normal(s) => r.append(s.as_str()),
            }
            i += 1;
        }
        assert(self@.take(i as int) =~= self@);
        r
    }

    /// Whether the path names a place by itself.
    pub fn is_absolute(&self, os: Os) -> (r: bool)
        ensures
            r == is_absolute_parts(self@, os),
    {
        let n: usize = self.components.len();
        match os {
            Os::Windows => self.starts_verbatim() || n >= 2 && match self.components[0] {
                Component::Prefix(_) => true,
                _ => false,
            } && match self.components[1] {
                Component::RootDir => true,
                _ => false,
            },
            _ => n >= 1 && match self.components[0] {
                Component::RootDir => true,
                _ => false,
            },
        }
    }

    /// The entry `name` of the directory.
    pub fn child(&self, name: &str) -> (r: InstallPath)
        ensures
            r@ == child_parts(self@, name@),
    {
        let mut r = self.clone();
        if self.starts_verbatim() {
            r.give_root();
        }
        let ghost before = r@;
        r.components.push(Component::Normal(name.to_owned()));
        assert(r@ =~= before.push(Part::Normal(name@)));
        r
    }

    /// The directory that the path lies in.
    pub fn parent(&self) -> (r: Option<InstallPath>)
        ensures
            match r {
                Some(dir) => parent_parts(self@) == Some(dir@),
                None => parent_parts(self@) is None,
            },
    {
        let n: usize = self.components.len();
        if n == 0 {
            return None;
        }
        match &self.components[n - 1] {
            Component::RootDir => {
                return None;
            },
            Component::Prefix(_) => {
                return None;
            },
            _ => {},
        }
        let mut r = self.clone();
        let ghost before = r@;
        r.components.pop();
        assert(r@ =~= before.drop_last());
        Some(r)
    }

    /// Whether the path is `base` or lies below it.
    pub fn is_within(&self, base: &InstallPath) -> (r: bool)
        ensures
            r == lies_within(base@, self@),
    {
        if base.components.len() > self.components.len() {
            return false;
        }
        let mut i: usize = 0;
        while i < base.components.len()
            invariant
                i <= base.components.len(),
                base.components.len() <= self.components.len(),
                forall|j: int| 0 <= j < i ==> compared_parts(base@)[j] == compared_parts(self@)[j],
            decreases base.components.len() - i,
        {
            if !base.components[i].equals(&self.components[i]) {
                assert(compared_parts(base@)[i as int] != compared_parts(self@).subrange(
                    0,
                    base@.len() as int,
                )[i as int]);
                return false;
            }
            i += 1;
        }
        assert(compared_parts(base@) =~= compared_parts(self@).subrange(0, base@.len() as int));
        true
    }

    /// Puts a root behind a bare prefix.
    fn give_root(&mut self)
        ensures
            final(self)@ == rooted(old(self)@),
    {
        if self.components.len() == 1 {
            let ghost before = self@;
            self.components.push(Component::RootDir);
            assert(self@ =~= before.push(Part::RootDir));
        }
    }

    fn starts_verbatim(&self) -> (r: bool)
        ensures
            r == is_verbatim(self@),
    {
        if self.components.len() == 0 {
            return false;
        }
        match &self.components[0] {
            Component::Prefix(s) => begins_with(s.as_str(), "\\\\?\\"),
            _ => false,
        }
    }

    /// Goes from the directory to `more`.
    pub fn join(&self, more: &InstallPath) -> (r: InstallPath)
        ensures
            r@ == joined(self@, more@),
    {
        if more.components.len() > 0 {
            if let Component::Prefix(_) = &more.components[0] {
                return more.clone();
            }
        }
        if self.starts_verbatim() {
            let mut r = self.clone();
            if more.components.len() == 0 {
                r.give_root();
                return r;
            }
            r.append_verbatim(more, 0);
            assert(more@.skip(0) =~= more@);
            return r;
        }
        if more.components.len() > 0 {
            if let Component::RootDir = &more.components[0] {
                if self.components.len() > 0 {
                    if let Component::Prefix(_) = &self.components[0] {
                        let mut components: Vec<Component> = Vec::new();
                        components.push(self.components[0].clone());
                        let mut rest = more.clone();
                        let ghost tail = rest.components@;
                        components.append(&mut rest.components);
                        let r = InstallPath { components };
                        assert(parts_of(tail) =~= more@);
                        assert(r@ =~= seq![self@[0]] + more@);
                        return r;
                    }
                }
                return more.clone();
            }
        }
        let mut r = self.clone();
        let mut rest = more.clone();
        let ghost tail = rest.components@;
        let ghost head = r.components@;
        r.components.append(&mut rest.components);
        assert(parts_of(tail) =~= more@);
        assert(parts_of(head) =~= self@);
        assert(r@ =~= self@ + more@);
        r.drop_cur_dirs()
    }

    /// Puts the path together again from its components.
    pub fn recollect(&self) -> (r: InstallPath)
        ensures
            r@ == recollected(self@),
    {
        if self.starts_verbatim() {
            let mut components: Vec<Component> = Vec::new();
            components.push(self.components[0].clone());
            let mut r = InstallPath { components };
            assert(r@ =~= self@.take(1));
            r.append_verbatim(self, 1);
            r
        } else {
            self.drop_cur_dirs()
        }
    }

    fn drop_cur_dirs(&self) -> (r: InstallPath)
        ensures
            r@ == without_cur_dirs(self@),
    {
        let mut r = InstallPath { components: Vec::new() };
        let mut i: usize = 0;
        assert(r@ =~= Seq::empty());
        while i < self.components.len()
            invariant
                i <= self.components.len(),
                r@ == without_cur_dirs(self@.take(i as int)),
            decreases self.components.len() - i,
        {
            proof {
                assert(self@.take(i + 1).drop_last() =~= self@.take(i as int));
            }
            let after_prefix = i == 1 && match self.components[0] {
                Component::Prefix(_) => true,
                _ => false,
            };
            let drop = i > 0 && !after_prefix && match self.components[i] {
                Component::CurDir => true,
                _ => false,
            };
            if !drop {
                let ghost before = r@;
                r.components.push(self.components[i].clone());
                assert(r@ =~= before.push(self@[i as int]));
            }
            i += 1;
        }
        assert(self@.take(i as int) =~= self@);
        r
    }

    /// Appends the components of `more` from position `from` on, the way verbatim paths do.
    fn append_verbatim(&mut self, more: &InstallPath, from: usize)
        requires
            from <= more@.len(),
        ensures
            final(self)@ == appended_verbatim(old(self)@, more@.skip(from as int)),
    {
        let ghost base = self@;
        let ghost list = more@.skip(from as int);
        let mut i: usize = from;
        assert(list.take(0) =~= Seq::empty());
        while i < more.components.len()
            invariant
                from <= i <= more.components.len(),
                list == more@.skip(from as int),
                self@ == appended_verbatim(base, list.take(i - from)),
            decreases more.components.len() - i,
        {
            proof {
                assert(list.take(i - from + 1).drop_last() =~= list.take(i - from));
                assert(list.take(i - from + 1).last() == more@[i as int]);
            }
            let ghost before = self@;
            match &more.components[i] {
                Component::CurDir => {},
                Component::RootDir => {
                    self.components.truncate(1);
                    self.components.push(Component::RootDir);
                    assert(self@ =~= if before.len() > 1 {
                        before.take(1).push(Part::RootDir)
                    } else {
                        before.push(Part::RootDir)
                    });
                },
                Component::ParentDir => {
                    let n: usize = self.components.len();
                    if n > 0 {
                        if let Component::Normal(_) = &self.components[n - 1] {
                            let _ = self.components.pop();
                            assert(self@ =~= before.drop_last());
                        }
                    }
                },
                other => {
                    self.give_root();
                    self.components.push(other.clone());
                    assert(self@ =~= rooted(before).push(more@[i as int]));
                },
            }
            i += 1;
        }
        assert(list.take(i - from) =~= list);
    }
}

/// Whether `.` occurs only where it counts as a component.
pub open spec fn no_inner_cur_dir(parts: Seq<Part>) -> bool {
    forall|i: int| 0 <= i < parts.len() && !may_be_cur_dir(parts, i) ==> !(#[trigger] parts[i] is CurDir)
}

pub proof fn lemma_without_cur_dirs(parts: Seq<Part>)
    ensures
        no_inner_cur_dir(without_cur_dirs(parts)),
        parts.len() > 0 ==> without_cur_dirs(parts).len() > 0 && without_cur_dirs(parts)[0] == parts[0],
        no_inner_cur_dir(parts) ==> without_cur_dirs(parts) == parts,
    decreases parts.len(),
{
    if parts.len() > 0 {
        lemma_without_cur_dirs(parts.drop_last());
        let front = without_cur_dirs(parts.drop_last());
        let whole = without_cur_dirs(parts);
        if parts.len() == 1 {
            assert(front =~= Seq::empty());
        }
        if parts.len() == 2 {
            assert(parts.drop_last().drop_last() =~= Seq::empty());
            assert(front.len() == 1);
        }
        assert forall|i: int| 0 <= i < whole.len() && !may_be_cur_dir(whole, i) implies !(#[trigger] whole[i] is CurDir) by {
            if i < front.len() {
                assert(whole[i] == front[i]);
                assert(whole[0] == front[0]);
            }
        }
        if no_inner_cur_dir(parts) {
            assert forall|i: int| 0 <= i < parts.drop_last().len() && !may_be_cur_dir(parts.drop_last(), i) implies !(
            #[trigger] parts.drop_last()[i] is CurDir) by {
                assert(parts.drop_last()[i] == parts[i]);
                assert(parts.drop_last()[0] == parts[0]);
            }
            assert(parts[parts.len() - 1] == parts.last());
            assert(whole =~= parts);
        }
    } else {
        assert(without_cur_dirs(parts) =~= parts);
    }
}

/// Names joined to a directory stand behind its components.
pub proof fn lemma_joined_names(base: Seq<Part>, names: Seq<Part>)
    requires
        if is_verbatim(base) {
            base.len() >= 2
        } else {
            base.len() > 0 && no_inner_cur_dir(base)
        },
        forall|i: int| 0 <= i < names.len() ==> #[trigger] names[i] is Normal,
    ensures
        joined(base, names) == base + names,
    decreases names.len(),
{
    if is_verbatim(base) {
        if names.len() > 0 {
            assert forall|i: int| 0 <= i < names.drop_last().len() implies #[trigger] names.drop_last()[i] is Normal by {
                assert(names.drop_last()[i] == names[i]);
            }
            lemma_joined_names(base, names.drop_last());
            assert(names.last() is Normal);
            assert(base + names =~= (base + names.drop_last()).push(names.last()));
            if names.drop_last().len() > 0 {
                assert(names.drop_last()[0] is Normal);
            } else {
                assert(appended_verbatim(base, names.drop_last()) == base);
                assert(base + names.drop_last() =~= base);
            }
            assert(appended_verbatim(base, names.drop_last()) == base + names.drop_last());
        } else {
            assert(base + names =~= base);
        }
    } else {
        let whole = base + names;
        assert forall|i: int| 0 <= i < whole.len() && !may_be_cur_dir(whole, i) implies !(#[trigger] whole[i] is CurDir) by {
            if i >= base.len() {
                assert(names[i - base.len()] is Normal);
            } else {
                assert(base[i] == whole[i] && base[0] == whole[0]);
            }
        }
        lemma_without_cur_dirs(whole);
    }
}

/// What appending to a verbatim prefix leaves: names, and a root behind the prefix.
spec fn is_plain(parts: Seq<Part>) -> bool {
    &&& parts.len() >= 1
    &&& parts[0] is Prefix
    &&& parts.len() >= 2 ==> parts[1] is RootDir
    &&& forall|i: int|
        0 < i < parts.len() ==> !(#[trigger] parts[i] is CurDir) && !(parts[i] is ParentDir) && (parts[i] is RootDir
            ==> i == 1)
}

proof fn lemma_appended_plain(base: Seq<Part>, more: Seq<Part>)
    requires
        is_plain(base),
    ensures
        is_plain(appended_verbatim(base, more)),
        appended_verbatim(base, more)[0] == base[0],
    decreases more.len(),
{
    if more.len() > 0 {
        lemma_appended_plain(base, more.drop_last());
        let front = appended_verbatim(base, more.drop_last());
        let whole = appended_verbatim(base, more);
        assert forall|i: int| 0 < i < whole.len() implies !(#[trigger] whole[i] is CurDir) && !(whole[i] is ParentDir)
            && (whole[i] is RootDir ==> i == 1) by {
            if i < front.len() {
                assert(front[i] is RootDir ==> i == 1);
            }
        }
    }
}

proof fn lemma_append_plain(parts: Seq<Part>, n: int)
    requires
        is_plain(parts),
        1 <= n <= parts.len(),
    ensures
        appended_verbatim(parts.take(1), parts.take(n).skip(1)) == parts.take(n),
    decreases n,
{
    let more = parts.take(n).skip(1);
    if n == 1 {
        assert(more =~= Seq::empty());
    } else {
        lemma_append_plain(parts, n - 1);
        assert(more.drop_last() =~= parts.take(n - 1).skip(1));
        assert(more.last() == parts[n - 1]);
        assert(parts.take(n) =~= parts.take(n - 1).push(parts[n - 1]));
    }
}

/// Putting a path together again changes nothing more the second time, nor below a name.
pub proof fn lemma_recollected_child(parts: Seq<Part>, name: Seq<char>)
    ensures
        recollected(child_parts(recollected(parts), name)) == child_parts(recollected(parts), name),
        parts.len() > 0 ==> recollected(parts).len() > 0 && recollected(parts)[0] == parts[0],
{
    let dir = recollected(parts);
    let child = child_parts(dir, name);
    if is_verbatim(parts) {
        assert(is_plain(parts.take(1)));
        lemma_appended_plain(parts.take(1), parts.skip(1));
        assert(is_plain(child));
        lemma_append_plain(child, child.len() as int);
        assert(child.take(child.len() as int) =~= child);
    } else {
        lemma_without_cur_dirs(parts);
        if parts.len() == 0 {
            assert(dir =~= Seq::empty());
        }
        assert(!is_verbatim(child));
        lemma_without_cur_dirs(child);
    }
}

/// From an absolute directory every path leads to an absolute one, or to one with its own prefix.
pub proof fn lemma_joined_absolute(base: Seq<Part>, more: Seq<Part>, os: Os)
    requires
        is_absolute_parts(base, os),
    ensures
        is_absolute_parts(joined(base, more), os) || joined(base, more)[0] is Prefix,
        joined(base, more).len() > 0,
        is_absolute_parts(recollected(joined(base, more)), os) || recollected(joined(base, more))[0] is Prefix,
{
    let whole = joined(base, more);
    if more.len() > 0 && more[0] is Prefix {
    } else if is_verbatim(base) {
        lemma_appended_first(base, more);
    } else if more.len() > 0 && more[0] is RootDir {
    } else {
        lemma_without_cur_dirs(base + more);
        if os == Os::Windows {
            assert(whole[0] == base[0]);
        }
    }
    lemma_recollected_child(whole, Seq::empty());
}

proof fn lemma_appended_first(base: Seq<Part>, more: Seq<Part>)
    requires
        base.len() > 0,
        base[0] is Prefix,
    ensures
        appended_verbatim(base, more).len() > 0,
        appended_verbatim(base, more)[0] == base[0],
    decreases more.len(),
{
    if more.len() > 0 {
        lemma_appended_first(base, more.drop_last());
    }
}

/// Paths without a prefix are the same only where they have the same components, letter for
/// letter; and a path is always the same as itself.
pub proof fn law_paths_are_compared_by_component(a: Seq<Part>, b: Seq<Part>)
    ensures
        same_path(a, a),
        same_path(a, b) <==> same_path(b, a),
        same_path(a, b) ==> a.len() == b.len(),
        (forall|i: int| 0 <= i < a.len() ==> !(#[trigger] a[i] is Prefix)) ==> (same_path(a, b) <==> a == b),
        lies_within(a, a + b),
        lies_within(a, b) ==> a.len() <= b.len(),
        (forall|i: int| 0 <= i < a.len() ==> !(#[trigger] a[i] is Prefix)) ==> (lies_within(a, b) <==> a.is_prefix_of(b)),
{
    let x = compared_parts(a);
    let y = compared_parts(b);
    assert(x.len() == a.len() && y.len() == b.len());
    assert(x =~= compared_parts(a + b).subrange(0, x.len() as int));
    if forall|i: int| 0 <= i < a.len() ==> !(#[trigger] a[i] is Prefix) {
        assert(x =~= a);
        if a.len() <= b.len() {
            assert forall|i: int| 0 <= i < a.len() implies (y[i] == a[i] <==> b[i] == a[i]) by {
                assert(!(a[i] is Prefix));
                assert(y[i] == compared(b[i]));
            }
            if x == y {
                assert forall|i: int| 0 <= i < a.len() implies a[i] == b[i] by {
                    assert(y[i] == a[i]);
                }
                assert(a =~= b);
            }
            if x.is_prefix_of(y) {
                assert forall|i: int| 0 <= i < a.len() implies a[i] == b[i] by {
                    assert(y.subrange(0, x.len() as int)[i] == y[i]);
                }
                assert(a =~= b.subrange(0, a.len() as int));
            }
            if a.is_prefix_of(b) {
                assert forall|i: int| 0 <= i < a.len() implies x[i] == y[i] by {
                    assert(b.subrange(0, a.len() as int)[i] == b[i]);
                }
                assert(x =~= y.subrange(0, x.len() as int));
            }
        }
    }
}

/// The letter of a drive counts without its case, and as nothing else: `c:` is the drive `C:`, and
/// no other letter's. Behind the drive, names count letter for letter.
pub proof fn law_drive_letters_have_no_case(c: char, d: char, a: Seq<char>, b: Seq<char>)
    requires
        'a' <= c <= 'z',
        'a' <= d <= 'z',
    ensures
        same_path(
            seq![Part::Prefix(seq![c, ':']), Part::RootDir, Part::Normal(a)],
            seq![Part::Prefix(seq![((d as u32) - 32) as char, ':']), Part::RootDir, Part::Normal(b)],
        ) <==> c == d && a == b,
{
    reveal_strlit("\\\\?\\");
    let x = seq![Part::Prefix(seq![c, ':']), Part::RootDir, Part::Normal(a)];
    let e = ((d as u32) - 32) as char;
    let y = seq![Part::Prefix(seq![e, ':']), Part::RootDir, Part::Normal(b)];
    let u = compared_parts(x);
    let v = compared_parts(y);
    let l = ((c as u32) - 32) as char;
    assert(comparable_prefix(seq![c, ':']) =~= seq![l, ':']);
    assert(comparable_prefix(seq![e, ':']) =~= seq![e, ':']);
    assert(u[0] == Part::Prefix(seq![l, ':']));
    assert(v[0] == Part::Prefix(seq![e, ':']));
    assert(u[2] == Part::Normal(a));
    assert(v[2] == Part::Normal(b));
    if u == v {
        assert(u[0] == v[0] && u[2] == v[2]);
        assert(seq![l, ':'][0] == seq![e, ':'][0]);
    }
    if c == d && a == b {
        assert(u =~= v);
    }
}

/// A directory holds its entries: going to an entry and back to the directory it lies in is going
/// nowhere. (A bare verbatim prefix first gets a root, so it is left out.) A root, a bare drive and
/// the empty path lie in no directory.
pub proof fn law_parent_undoes_child(dir: Seq<Part>, name: Seq<char>)
    ensures
        child_parts(dir, name).len() > 0,
        child_parts(dir, name).last() == Part::Normal(name),
        !is_verbatim(dir) || dir.len() >= 2 ==> child_parts(dir, name) == dir.push(Part::Normal(name)) && parent_parts(
            child_parts(dir, name),
        ) == Some(dir),
        parent_parts(dir) is None <==> dir.len() == 0 || dir.last() is RootDir || dir.last() is Prefix,
        parent_parts(dir) matches Some(outer) ==> outer == dir.take(dir.len() - 1),
{
    assert(dir.push(Part::Normal(name)).drop_last() =~= dir);
}

/// Where a path leads as seen from a directory: a path with a prefix of its own stands for itself,
/// and so does one that starts at the root, but for the directory's drive; any other is put behind
/// the directory, name by name and with its `..`. (A verbatim directory resolves `..` by itself.)
pub proof fn law_joining(base: Seq<Part>, more: Seq<Part>)
    ensures
        more.len() > 0 && more[0] is Prefix ==> joined(base, more) == more,
        more.len() > 0 && more[0] is RootDir && base.len() > 0 && base[0] is Prefix && !is_verbatim(base) ==> joined(
            base,
            more,
        ) == seq![base[0]] + more,
        more.len() > 0 && more[0] is RootDir && !(base.len() > 0 && base[0] is Prefix) ==> joined(base, more) == more,
        !is_verbatim(base) && base.len() > 0 && no_inner_cur_dir(base) && (forall|i: int|
            0 <= i < more.len() ==> #[trigger] more[i] is Normal || more[i] is ParentDir) ==> joined(base, more) == base
            + more,
{
    if !is_verbatim(base) && base.len() > 0 && no_inner_cur_dir(base) && (forall|i: int|
        0 <= i < more.len() ==> #[trigger] more[i] is Normal || more[i] is ParentDir) {
        let whole = base + more;
        assert forall|i: int| 0 <= i < whole.len() && !may_be_cur_dir(whole, i) implies !(#[trigger] whole[i] is CurDir) by {
            if i >= base.len() {
                assert(more[i - base.len()] is Normal || more[i - base.len()] is ParentDir);
            } else {
                assert(base[i] == whole[i] && base[0] == whole[0]);
            }
        }
        lemma_without_cur_dirs(whole);
        if more.len() > 0 {
            assert(more[0] is Normal || more[0] is ParentDir);
        }
    }
}

/// A `.` goes nowhere: dropping it from the middle of a path leaves the rest as it was.
pub proof fn law_dots_go_nowhere(a: Seq<Part>, b: Seq<Part>)
    requires
        a.len() >= 2 || (a.len() == 1 && !(a[0] is Prefix)),
    ensures
        without_cur_dirs(a.push(Part::CurDir) + b) == without_cur_dirs(a + b),
    decreases b.len(),
{
    let x = a.push(Part::CurDir) + b;
    let y = a + b;
    if b.len() == 0 {
        assert(x =~= a.push(Part::CurDir));
        assert(x.drop_last() =~= a);
        assert(y =~= a);
    } else {
        assert(x.drop_last() =~= a.push(Part::CurDir) + b.drop_last());
        assert(y.drop_last() =~= a + b.drop_last());
        law_dots_go_nowhere(a, b.drop_last());
    }
}

/// A path is absolute exactly if it says where it starts: with a root, and on Windows with a drive
/// in front of the root.
pub proof fn law_absolute_paths(parts: Seq<Part>, os: Os)
    ensures
        !(os is Windows) ==> (is_absolute_parts(parts, os) <==> parts.len() > 0 && parts[0] is RootDir),
        os is Windows && parts.len() > 0 && !(parts[0] is Prefix) ==> !is_absolute_parts(parts, os),
        os is Windows && parts.len() >= 2 && parts[0] is Prefix && parts[1] is RootDir ==> is_absolute_parts(parts, os),
        os is Windows && parts.len() >= 2 && parts[0] is Prefix && !(parts[1] is RootDir) && !is_verbatim(parts)
            ==> !is_absolute_parts(parts, os),
        parts.len() == 0 ==> !is_absolute_parts(parts, os),
{
}

/// The text of a path has a slash between its names, and none behind a root but the root itself.
pub proof fn law_path_text(dir: Seq<Part>, name: Seq<char>)
    ensures
        dir.len() > 0 && (dir.last() is Normal || dir.last() is ParentDir || dir.last() is CurDir) ==> path_text(
            dir.push(Part::Normal(name)),
        ) == path_text(dir).push('/') + name,
        dir.len() > 0 && (dir.last() is RootDir || dir.last() is Prefix) ==> path_text(dir.push(Part::Normal(name)))
            == path_text(dir) + name,
        path_text(seq![Part::Normal(name)]) == name,
        path_text(seq![Part::RootDir, Part::Normal(name)]) == seq!['/'] + name,
{
    reveal_strlit("/");
    assert("/"@ =~= seq!['/']);
    let one = seq![Part::Normal(name)];
    assert(one.drop_last() =~= Seq::empty());
    assert(path_text(one.drop_last()) =~= Seq::empty());
    assert(path_text(one) =~= name);
    let root = seq![Part::RootDir];
    assert(root.drop_last() =~= Seq::empty());
    assert(path_text(root.drop_last()) =~= Seq::empty());
    assert(path_text(root) =~= seq!['/']);
    let two = seq![Part::RootDir, Part::Normal(name)];
    assert(two.drop_last() =~= root);
    let child = dir.push(Part::Normal(name));
    assert(child.drop_last() =~= dir);
    assert(path_text(dir).push('/') + name =~= path_text(dir) + "/"@ + name);
}

/// The pieces of two lists stand for the components of the one and then of the other, with `.`
/// counting at the very start alone; a name stands for itself.
pub proof fn law_components_of_joined_pieces(a: Seq<Seq<char>>, b: Seq<Seq<char>>, opening: bool)
    requires
        a.len() > 0,
    ensures
        parts_of_pieces(a + b, opening) == parts_of_pieces(a, opening) + parts_of_pieces(b, false),
        a.len() == 1 && a[0].len() > 0 && a[0] != "."@ && a[0] != ".."@ ==> parts_of_pieces(a, opening) == seq![
            Part::Normal(a[0]),
        ],
        a.len() == 1 && a[0] == ".."@ ==> parts_of_pieces(a, opening) == seq![Part::ParentDir],
        a.len() == 1 && a[0].len() == 0 ==> parts_of_pieces(a, opening) == Seq::<Part>::empty(),
        a.len() == 1 && a[0] == "."@ ==> parts_of_pieces(a, opening) == if opening {
            seq![Part::CurDir]
        } else {
            Seq::empty()
        },
    decreases a.len(),
{
    reveal_strlit(".");
    reveal_strlit("..");
    let rest = a.drop_first();
    assert((a + b).drop_first() =~= rest + b);
    if rest.len() > 0 {
        law_components_of_joined_pieces(rest, b, false);
    } else {
        assert(rest + b =~= b);
        assert(parts_of_pieces(rest, false) =~= Seq::empty());
    }
    assert(parts_of_pieces(rest + b, false) =~= parts_of_pieces(rest, false) + parts_of_pieces(b, false));
    assert(parts_of_pieces(a + b, opening) =~= parts_of_pieces(a, opening) + parts_of_pieces(b, false));
    if a.len() == 1 {
        assert(parts_of_pieces(a, opening) =~= if a[0].len() == 0 || (a[0] == "."@ && !opening) {
            Seq::empty()
        } else if a[0] == "."@ {
            seq![Part::CurDir]
        } else if a[0] == ".."@ {
            seq![Part::ParentDir]
        } else {
            seq![Part::Normal(a[0])]
        });
    }
}

/// Paths as they are handled: compared, looked up and put together component by component.
pub proof fn law_paths_as_they_are_handled(
    a: InstallPath,
    b: InstallPath,
    os: Os,
    judged: (bool, bool, bool),
    made: (InstallPath, Option<InstallPath>, InstallPath),
)
    requires
        call_ensures(InstallPath::equals, (&a, &b), judged.0),
        call_ensures(InstallPath::is_within, (&a, &b), judged.1),
        call_ensures(InstallPath::is_absolute, (&a, os), judged.2),
        call_ensures(InstallPath::join, (&a, &b), made.0),
        call_ensures(InstallPath::parent, (&a,), made.1),
        call_ensures(InstallPath::recollect, (&a,), made.2),
    ensures
        judged.0 <==> same_path(a@, b@),
        judged.1 <==> lies_within(b@, a@),
        judged.2 <==> is_absolute_parts(a@, os),
        made.0@ == joined(a@, b@),
        made.1 is Some <==> a@.len() > 0 && !(a@.last() is RootDir) && !(a@.last() is Prefix),
        made.1 matches Some(dir) ==> dir@ == a@.take(a@.len() - 1),
        made.2@ == recollected(a@),
{
}

/// An entry of a directory is the directory and its name, in its components and in its text.
pub proof fn law_entries_are_named(dir: InstallPath, name: &str, entry: InstallPath, text: String)
    requires
        call_ensures(InstallPath::child, (&dir, name), entry),
        call_ensures(InstallPath::text, (&entry,), text),
        !is_verbatim(dir@),
        dir@.len() > 0,
        dir@.last() is Normal,
    ensures
        entry@ == dir@.push(Part::Normal(name@)),
        text@ == path_text(dir@).push('/') + name@,
{
    law_path_text(dir@, name@);
}

/// A portable path is taken apart at its slashes: a name is one component, a slash in front is the root, and what stands
/// behind a slash goes behind what stands in front of it.
pub proof fn law_portable_paths_are_taken_apart(path: &str, a: Seq<char>, b: Seq<char>, parsed: InstallPath)
    requires
        call_ensures(InstallPath::parse, (path,), parsed),
        is_portable(path@),
        a.len() > 0,
        a != "."@,
        a != ".."@,
        !a.contains('/'),
        path@ == a.push('/') + b || path@ == a || path@ == seq!['/'] + a,
    ensures
        path@ == a ==> parsed@ == seq![Part::Normal(a)],
        path@ == seq!['/'] + a ==> parsed@ == seq![Part::RootDir, Part::Normal(a)],
        path@ == a.push('/') + b ==> parsed@ == seq![Part::Normal(a)] + parts_of_pieces(text::pieces(b, '/'), false),
{
    reveal_strlit("/");
    assert("/"@ =~= seq!['/']);
    assert(a.contains(a[0]));
    text::law_pieces_of_joined_texts(a, b, '/');
    law_components_of_joined_pieces(seq![a], text::pieces(b, '/'), true);
    if path@ == seq!['/'] + a {
        let none = Seq::<char>::empty();
        assert(path@ =~= none.push('/') + a);
        text::law_pieces_of_joined_texts(none, a, '/');
        law_components_of_joined_pieces(seq![none], seq![a], false);
        law_components_of_joined_pieces(seq![a], Seq::empty(), false);
        assert(path@.take(1) =~= "/"@);
        assert(parsed@ =~= seq![Part::RootDir, Part::Normal(a)]);
    } else {
        if text::starts_with(path@, "/"@) {
            assert(path@.take(1)[0] == path@[0]);
            assert(path@[0] == a[0]);
        }
    }
}

/// A verbatim path is walked step by step: what is appended in two parts is appended in one. A name goes one level down
/// and `..` back up, though not beyond the root; `.` goes nowhere, and a root goes back to the start.
pub proof fn law_verbatim_paths_are_walked(base: Seq<Part>, a: Seq<Part>, b: Seq<Part>, name: Seq<char>)
    ensures
        appended_verbatim(base, a + b) == appended_verbatim(appended_verbatim(base, a), b),
        base.len() >= 2 ==> appended_verbatim(base, seq![Part::Normal(name)]) == base.push(Part::Normal(name)),
        base.len() == 1 ==> appended_verbatim(base, seq![Part::Normal(name)]) == seq![
            base[0],
            Part::RootDir,
            Part::Normal(name),
        ],
        appended_verbatim(base, seq![Part::CurDir]) == base,
        appended_verbatim(base.push(Part::Normal(name)), seq![Part::ParentDir]) == base,
        base.len() > 0 && !(base.last() is Normal) ==> appended_verbatim(base, seq![Part::ParentDir]) == base,
        base.len() > 0 ==> appended_verbatim(base, seq![Part::RootDir]) == seq![base[0], Part::RootDir],
    decreases b.len(),
{
    let one = |p: Part| seq![p];
    assert forall|p: Part| #[trigger] one(p).drop_last() == Seq::<Part>::empty() by {
        assert(one(p).drop_last() =~= Seq::empty());
    }
    assert(one(Part::Normal(name)).drop_last() == Seq::<Part>::empty());
    assert(one(Part::CurDir).drop_last() == Seq::<Part>::empty());
    assert(one(Part::ParentDir).drop_last() == Seq::<Part>::empty());
    assert(one(Part::RootDir).drop_last() == Seq::<Part>::empty());
    reveal_with_fuel(appended_verbatim, 2);
    if base.len() == 1 {
        assert(base.push(Part::RootDir).push(Part::Normal(name)) =~= seq![base[0], Part::RootDir, Part::Normal(name)]);
    }
    assert(base.push(Part::Normal(name)).drop_last() =~= base);
    if base.len() > 0 {
        assert(base.take(1).push(Part::RootDir) =~= seq![base[0], Part::RootDir]);
        if base.len() == 1 {
            assert(base.push(Part::RootDir) =~= seq![base[0], Part::RootDir]);
        }
    }
    if b.len() == 0 {
        assert(a + b =~= a);
    } else {
        law_verbatim_paths_are_walked(base, a, b.drop_last(), name);
        assert((a + b).drop_last() =~= a + b.drop_last());
        assert((a + b).last() == b.last());
    }
}

/// Which slashes a prefix is written with does not matter, except in a verbatim one, which is the same as no other.
pub proof fn law_slashes_of_a_prefix(p: Seq<char>, q: Seq<char>)
    requires
        !text::starts_with(p, "\\\\?\\"@),
    ensures
        !text::starts_with(q, "\\\\?\\"@) && text::replaced(p, '\\', '/') == text::replaced(q, '\\', '/')
            ==> comparable_prefix(p) == comparable_prefix(q),
        text::starts_with(q, "\\\\?\\"@) ==> comparable_prefix(p) != comparable_prefix(q),
        p.len() != 2 ==> comparable_prefix(p) == text::replaced(p, '\\', '/'),
{
    reveal_strlit("\\\\?\\");
    if text::starts_with(q, "\\\\?\\"@) {
        assert(q.take(4)[0] == q[0]);
        let x = comparable_prefix(p);
        let y = comparable_prefix(q);
        assert(y[0] == '\\');
        if x.len() > 0 {
            assert(x[0] != '\\');
        }
    }
}

} // verus!
