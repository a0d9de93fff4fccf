//! Optional `launcher.toml`, looked for next to the launcher and then in the install dir.
//!
//! The launcher ships as a **single file**: every setting has a compiled-in default, so a bare
//! launcher dropped in an empty folder installs the game with no companion file. The file exists
//! to repoint a tester at a test mirror, or to pin a channel, without handing them a new build.
//!
//! Precedence, highest first: command line > launcher.toml > compiled-in default.

use crate::install;
use crate::paths::{self, InstallPath, Part};
use vstd::prelude::*;

verus! {

/// The settings of a `launcher.toml`.
#[derive(Debug)]
pub struct Config {
    /// Mirror base URLs, tried before the manifest's own list.
    pub mirrors: Vec<String>,
    /// Release channel, selecting `manifests/<channel>.json`.
    pub channel: Option<String>,
    /// Where to install. Relative paths resolve against the current directory, so the usual
    /// value is "." — alongside the launcher.
    pub install_dir: Option<String>,
    /// Parallel download workers.
    pub concurrency: Option<usize>,
}

impl Config {
    /// Whether nothing is set.
    pub open spec fn is_default(&self) -> bool {
        self.mirrors@.len() == 0 && self.channel is None && self.install_dir is None && self.concurrency is None
    }
}

impl Default for Config {
    fn default() -> (r: Self)
        ensures
            r.is_default(),
    {
        Config { mirrors: Vec::new(), channel: None, install_dir: None, concurrency: None }
    }
}

/// The `launcher.toml` next to the launcher.
pub open spec fn adjacent_config(exe: Option<Seq<Part>>) -> Option<Seq<Part>> {
    match exe {
        Some(path) => match paths::parent_parts(path) {
            Some(dir) => Some(paths::child_parts(dir, "launcher.toml"@)),
            None => None,
        },
        None => None,
    }
}

/// The `launcher.toml` next to the launcher. It alone can say where to install: a value in the
/// install dir's own file would be circular.
pub fn adjacent_path(exe: Option<&InstallPath>) -> (r: Option<InstallPath>)
    ensures
        match r {
            Some(path) => adjacent_config(install::view_of(exe)) == Some(path@),
            None => adjacent_config(install::view_of(exe)) is None,
        },
{
    match exe {
        Some(path) => match path.parent() {
            Some(dir) => Some(dir.child("launcher.toml")),
            None => None,
        },
        None => None,
    }
}

/// The files to look for, in order: next to the launcher, then in the install dir.
pub fn candidates(exe: Option<&InstallPath>, install_dir: &InstallPath) -> (r: Vec<InstallPath>)
    ensures
        match adjacent_config(install::view_of(exe)) {
            Some(path) => r@.len() == 2 && r@[0]@ == path && r@[1]@ == paths::child_parts(
                install_dir@,
                "launcher.toml"@,
            ),
            None => r@.len() == 1 && r@[0]@ == paths::child_parts(install_dir@, "launcher.toml"@),
        },
{
    let mut r: Vec<InstallPath> = Vec::new();
    if let Some(path) = adjacent_path(exe) {
        r.push(path);
    }
    r.push(install_dir.child("launcher.toml"));
    r
}

/// The first file that could be read and understood.
pub open spec fn first_config(found: Seq<Option<Config>>) -> Option<Config>
    decreases found.len(),
{
    if found.len() == 0 {
        None
    } else if found[0] is Some {
        found[0]
    } else {
        first_config(found.drop_first())
    }
}

/// The settings that count: those of the first candidate that could be read and understood. That
/// there is none is a silent default, not an error.
pub fn load(found: Vec<Option<Config>>) -> (r: Config)
    ensures
        match first_config(found@) {
            Some(config) => r == config,
            None => r.is_default(),
        },
{
    let ghost all = found@;
    let mut rest = found;
    let mut result: Option<Config> = None;
    // From the last candidate to the first, so that an earlier one takes the place of a later one.
    assert(all.skip(all.len() as int) =~= Seq::empty());
    while rest.len() > 0
        invariant
            rest@.len() <= all.len(),
            rest@ == all.take(rest@.len() as int),
            result == first_config(all.skip(rest@.len() as int)),
        decreases rest.len(),
    {
        let ghost n = rest@.len() as int;
        assert(all.skip(n - 1).drop_first() =~= all.skip(n));
        assert(all.skip(n - 1)[0] == rest@[n - 1]);
        match rest.pop() {
            Some(Some(config)) => {
                result = Some(config);
            },
            _ => {},
        }
        assert(rest@ =~= all.take(n - 1));
    }
    assert(all.skip(0) =~= all);
    match result {
        Some(config) => config,
        None => Config::default(),
    }
}

/// The install dir that the file next to the launcher asks for.
pub fn install_dir_override(adjacent: Option<Config>) -> (r: Option<String>)
    ensures
        match adjacent {
            Some(config) => r == config.install_dir,
            None => r is None,
        },
{
    match adjacent {
        Some(config) => config.install_dir,
        None => None,
    }
}

/// The first file that can be read counts, whatever stands in later ones; where none can, nothing is set.
pub proof fn law_first_readable_file_counts(found: Vec<Option<Config>>, config: Config, i: int)
    requires
        call_ensures(load, (found,), config),
    ensures
        0 <= i < found@.len() && found@[i] is Some && (forall|j: int| 0 <= j < i ==> #[trigger] found@[j] is None) ==> config
            == found@[i]->0,
        (forall|j: int| 0 <= j < found@.len() ==> #[trigger] found@[j] is None) ==> config.mirrors@.len() == 0
            && config.channel is None && config.install_dir is None && config.concurrency is None,
{
    if 0 <= i < found@.len() && found@[i] is Some && (forall|j: int| 0 <= j < i ==> #[trigger] found@[j] is None) {
        lemma_first_config(found@, i);
    }
    if forall|j: int| 0 <= j < found@.len() ==> #[trigger] found@[j] is None {
        lemma_no_config(found@);
    }
}

proof fn lemma_first_config(found: Seq<Option<Config>>, i: int)
    requires
        0 <= i < found.len(),
        found[i] is Some,
        forall|j: int| 0 <= j < i ==> #[trigger] found[j] is None,
    ensures
        first_config(found) == found[i],
    decreases found.len(),
{
    if i > 0 {
        let rest = found.drop_first();
        assert(found[0] is None);
        assert forall|j: int| 0 <= j < i - 1 implies #[trigger] rest[j] is None by {
            assert(found[j + 1] is None);
        }
        lemma_first_config(rest, i - 1);
    }
}

proof fn lemma_no_config(found: Seq<Option<Config>>)
    requires
        forall|j: int| 0 <= j < found.len() ==> #[trigger] found[j] is None,
    ensures
        first_config(found) is None,
    decreases found.len(),
{
    if found.len() > 0 {
        let rest = found.drop_first();
        assert(found[0] is None);
        assert forall|j: int| 0 <= j < rest.len() implies #[trigger] rest[j] is None by {
            assert(found[j + 1] is None);
        }
        lemma_no_config(rest);
    }
}

/// The file next to the launcher is looked for first, then the one in the install dir; a launcher that
/// does not know where it lies looks in the install dir alone. Only the file next to the launcher has a
/// say in where to install.
pub proof fn law_settings_are_looked_for(
    exe: Option<&InstallPath>,
    install_dir: InstallPath,
    files: Vec<InstallPath>,
    adjacent: Option<InstallPath>,
)
    requires
        call_ensures(candidates, (exe, &install_dir), files),
        call_ensures(adjacent_path, (exe,), adjacent),
        !paths::is_verbatim(install_dir@),
    ensures
        files@.len() > 0,
        files@.last()@ == install_dir@.push(Part::Normal("launcher.toml"@)),
        exe is None ==> files@.len() == 1 && adjacent is None,
        exe matches Some(path) ==> path@.len() > 0 && path@.last() is Normal && !paths::is_verbatim(path@) ==> files@.len()
            == 2 && files@[0]@ == path@.update(path@.len() - 1, Part::Normal("launcher.toml"@)) && (adjacent matches Some(a)
            && a@ == files@[0]@),
{
    if let Some(path) = exe {
        if path@.len() > 0 && path@.last() is Normal && !paths::is_verbatim(path@) {
            let dir = path@.drop_last();
            if dir.len() > 0 {
                assert(dir[0] == path@[0]);
            }
            assert(!paths::is_verbatim(dir));
            assert(dir.push(Part::Normal("launcher.toml"@)) =~= path@.update(
                path@.len() - 1,
                Part::Normal("launcher.toml"@),
            ));
        }
    }
}

/// What the file next to the launcher says of the install dir is what it is asked for.
pub proof fn law_adjacent_file_has_a_say(adjacent: Option<Config>, dir: Option<String>)
    requires
        call_ensures(install_dir_override, (adjacent,), dir),
    ensures
        adjacent matches Some(config) ==> dir == config.install_dir,
        adjacent is None ==> dir is None,
{
}

} // verus!
