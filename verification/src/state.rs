//! Local install state: what was last put on disk, so a normal launch can skip unchanged files by
//! size without re-hashing gigabytes every time. A full verification ignores it.

use crate::manifest::{self, FileEntry, Manifest, Os};
use crate::paths::{self, InstallPath};
use crate::string_map::StringMap;
use crate::text;
use vstd::prelude::*;
use vstd::string::*;

verus! {

/// The install ledger.
pub struct State {
    pub version: String,
    /// Install-root-relative path -> hash that was installed.
    pub files: StringMap<String>,
}

impl Default for State {
    fn default() -> (r: Self)
        ensures
            r.version@ == Seq::<char>::empty(),
            r.files@ == Map::<Seq<char>, String>::empty(),
    {
        State { version: String::new(), files: StringMap::new() }
    }
}

/// A ledger in which each of `files` is entered under its path.
pub open spec fn with_installed(ledger: Map<Seq<char>, String>, files: Seq<FileEntry>) -> Map<Seq<char>, String>
    decreases files.len(),
{
    if files.len() == 0 {
        ledger
    } else {
        with_installed(ledger, files.drop_last()).insert(files.last().path@, files.last().hash)
    }
}

/// A ledger from which `paths` are struck.
pub open spec fn without_paths(ledger: Map<Seq<char>, String>, paths: Seq<Seq<char>>) -> Map<Seq<char>, String>
    decreases paths.len(),
{
    if paths.len() == 0 {
        ledger
    } else {
        without_paths(ledger, paths.drop_last()).remove(paths.last())
    }
}

/// The ledger after a clean sync with a manifest: every file of the platform is entered, and the
/// retired paths are struck, or they would outlive their files.
pub open spec fn synced_ledger(
    ledger: Map<Seq<char>, String>,
    files: Seq<FileEntry>,
    removed: Seq<Seq<char>>,
) -> Map<Seq<char>, String> {
    without_paths(with_installed(ledger, files), removed)
}

impl State {
    /// The state to record after a clean sync with `manifest`.
    pub fn record(self, manifest: &Manifest, os: Os) -> (r: State)
        ensures
            r.version@ == manifest.version@,
            r.files@ == synced_ledger(
                self.files@,
                manifest::wanted_files(manifest.files@, os),
                text::views(manifest.removed@),
            ),
    {
        let mut files = self.files;
        let wanted = manifest.files_for_platform(os);
        let ghost all = wanted@.unref();
        let mut i: usize = 0;
        while i < wanted.len()
            invariant
                i <= wanted.len(),
                all == wanted@.unref(),
                files@ == with_installed(self.files@, all.take(i as int)),
            decreases wanted.len() - i,
        {
            proof {
                assert(all.take(i + 1).drop_last() =~= all.take(i as int));
                assert(all.take(i + 1).last() == *wanted@[i as int]);
            }
            files.insert(wanted[i].path.clone(), wanted[i].hash.clone());
            i += 1;
        }
        assert(all.take(i as int) =~= all);
        let ghost installed = files@;
        let ghost gone = text::views(manifest.removed@);
        let mut k: usize = 0;
        while k < manifest.removed.len()
            invariant
                k <= manifest.removed.len(),
                gone == text::views(manifest.removed@),
                files@ == without_paths(installed, gone.take(k as int)),
            decreases manifest.removed.len() - k,
        {
            proof {
                assert(gone.take(k + 1).drop_last() =~= gone.take(k as int));
                assert(gone.take(k + 1).last() == manifest.removed@[k as int]@);
            }
            files.remove(manifest.removed[k].as_str());
            k += 1;
        }
        assert(gone.take(k as int) =~= gone);
        State { version: manifest.version.clone(), files }
    }
}

/// Entering files leaves every other path alone, and the last entry for a path counts.
proof fn lemma_with_installed(ledger: Map<Seq<char>, String>, files: Seq<FileEntry>, path: Seq<char>)
    ensures
        (forall|i: int| 0 <= i < files.len() ==> #[trigger] files[i].path@ != path) ==> (with_installed(
            ledger,
            files,
        ).contains_key(path) <==> ledger.contains_key(path)) && with_installed(ledger, files)[path] == ledger[path],
        forall|i: int|
            0 <= i < files.len() && #[trigger] files[i].path@ == path && (forall|j: int|
                i < j < files.len() ==> #[trigger] files[j].path@ != path) ==> with_installed(
                ledger,
                files,
            ).contains_key(path) && with_installed(ledger, files)[path] == files[i].hash,
    decreases files.len(),
{
    if files.len() > 0 {
        let front = files.drop_last();
        lemma_with_installed(ledger, front, path);
        if forall|i: int| 0 <= i < files.len() ==> #[trigger] files[i].path@ != path {
            assert forall|i: int| 0 <= i < front.len() implies #[trigger] front[i].path@ != path by {
                assert(front[i] == files[i]);
            }
            assert(files[files.len() - 1].path@ != path);
        }
        assert forall|i: int|
            0 <= i < files.len() && #[trigger] files[i].path@ == path && (forall|j: int|
                i < j < files.len() ==> #[trigger] files[j].path@ != path) implies with_installed(
            ledger,
            files,
        ).contains_key(path) && with_installed(ledger, files)[path] == files[i].hash by {
            if i < files.len() - 1 {
                assert(files[files.len() - 1].path@ != path);
                assert(front[i].path@ == path);
                assert forall|j: int| i < j < front.len() implies #[trigger] front[j].path@ != path by {
                    assert(front[j] == files[j]);
                }
            }
        }
    }
}

proof fn lemma_without_paths(ledger: Map<Seq<char>, String>, paths: Seq<Seq<char>>, path: Seq<char>)
    ensures
        without_paths(ledger, paths).contains_key(path) <==> ledger.contains_key(path) && !paths.contains(path),
        !paths.contains(path) ==> without_paths(ledger, paths)[path] == ledger[path],
    decreases paths.len(),
{
    if paths.len() > 0 {
        let front = paths.drop_last();
        lemma_without_paths(ledger, front, path);
        assert(paths =~= front.push(paths.last()));
        if front.contains(path) {
            let k = choose|k: int| 0 <= k < front.len() && front[k] == path;
            assert(paths[k] == path);
        }
        if paths.contains(path) && path != paths.last() {
            let k = choose|k: int| 0 <= k < paths.len() && paths[k] == path;
            assert(front[k] == path);
        }
        if path == paths.last() {
            assert(paths[paths.len() - 1] == path);
        }
    }
}

/// After a sync the ledger has no retired path; a path that the release neither installs nor
/// retires keeps what it had; and a path that the release installs and does not retire has the
/// hash of its last entry.
pub proof fn law_synced_ledger(
    ledger: Map<Seq<char>, String>,
    files: Seq<FileEntry>,
    removed: Seq<Seq<char>>,
    path: Seq<char>,
)
    ensures
        removed.contains(path) ==> !synced_ledger(ledger, files, removed).contains_key(path),
        !removed.contains(path) && (forall|i: int|
            0 <= i < files.len() ==> #[trigger] files[i].path@ != path) ==> (synced_ledger(
            ledger,
            files,
            removed,
        ).contains_key(path) <==> ledger.contains_key(path)) && synced_ledger(ledger, files, removed)[path]
            == ledger[path],
        forall|i: int|
            !removed.contains(path) && 0 <= i < files.len() && #[trigger] files[i].path@ == path && (forall|j: int|
                i < j < files.len() ==> #[trigger] files[j].path@ != path) ==> synced_ledger(
                ledger,
                files,
                removed,
            ).contains_key(path) && synced_ledger(ledger, files, removed)[path] == files[i].hash,
{
    lemma_with_installed(ledger, files, path);
    lemma_without_paths(with_installed(ledger, files), removed, path);
}

/// Where the ledger lives.
pub fn state_path(install_dir: &InstallPath) -> (r: InstallPath)
    ensures
        r@ == paths::child_parts(install_dir@, "quakers-launcher.json"@),
{
    install_dir.child("quakers-launcher.json")
}

/// Where a new ledger is written before it takes the place of the old one.
pub fn temporary_state_path(install_dir: &InstallPath) -> (r: InstallPath)
    ensures
        r@ == paths::child_parts(install_dir@, "quakers-launcher.json.tmp"@),
{
    install_dir.child("quakers-launcher.json.tmp")
}

/// Where older launchers kept the ledger: a whole directory holding one file.
pub fn legacy_state_path(install_dir: &InstallPath) -> (r: InstallPath)
    ensures
        r@ == paths::child_parts(paths::child_parts(install_dir@, ".quakers-launcher"@), "state.json"@),
{
    install_dir.child(".quakers-launcher").child("state.json")
}

/// Which of two ledgers counts: the current one, else the legacy one.
pub open spec fn counting_ledger<T>(current: Option<T>, legacy: Option<T>) -> Option<T> {
    if current is Some {
        current
    } else {
        legacy
    }
}

/// Which ledger text counts: the current one, else the legacy one, so that an existing install
/// keeps its ledger across the move.
pub fn ledger_text(current: Option<String>, legacy: Option<String>) -> (r: Option<String>)
    ensures
        r == counting_ledger(current, legacy),
{
    match current {
        Some(text) => Some(text),
        None => legacy,
    }
}

/// The state that a ledger stands for: a missing or unreadable one is an empty state.
pub fn state_or_default(parsed: Option<State>) -> (r: State)
    ensures
        match parsed {
            Some(state) => r == state,
            None => r.version@ == Seq::<char>::empty() && r.files@ == Map::<Seq<char>, String>::empty(),
        },
{
    match parsed {
        Some(state) => state,
        None => State::default(),
    }
}

/// A step of saving the ledger.
#[derive(Debug, Clone, Copy, PartialEq, Eq, Structural)]
pub enum SaveStep {
    /// Write the new ledger to its temporary place.
    WriteTemporary,
    /// Delete the ledger that the new one replaces, if there is one.
    RemoveOld,
    /// Move the new ledger into place.
    MoveIntoPlace,
    /// Delete the legacy ledger.
    RemoveLegacyFile,
    /// Delete the legacy directory, if nothing else is in it.
    RemoveLegacyDir,
    Done,
    Failed,
}

/// What follows a step of saving. Writing and moving must succeed; the deletions are best effort.
pub open spec fn save_step_after(step: SaveStep, ok: bool, legacy_exists: bool) -> SaveStep {
    match step {
        SaveStep::WriteTemporary => if ok { SaveStep::RemoveOld } else { SaveStep::Failed },
        SaveStep::RemoveOld => SaveStep::MoveIntoPlace,
        SaveStep::MoveIntoPlace => if !ok {
            SaveStep::Failed
        } else if legacy_exists {
            SaveStep::RemoveLegacyFile
        } else {
            SaveStep::Done
        },
        SaveStep::RemoveLegacyFile => SaveStep::RemoveLegacyDir,
        SaveStep::RemoveLegacyDir => SaveStep::Done,
        SaveStep::Done => SaveStep::Done,
        SaveStep::Failed => SaveStep::Failed,
    }
}

/// What to do after `step` of saving the ledger, given whether it succeeded and whether there is
/// a legacy ledger.
pub fn next_save_step(step: SaveStep, ok: bool, legacy_exists: bool) -> (r: SaveStep)
    ensures
        r == save_step_after(step, ok, legacy_exists),
{
    match step {
        SaveStep::WriteTemporary => if ok { SaveStep::RemoveOld } else { SaveStep::Failed },
        SaveStep::RemoveOld => SaveStep::MoveIntoPlace,
        SaveStep::MoveIntoPlace => if !ok {
            SaveStep::Failed
        } else if legacy_exists {
            SaveStep::RemoveLegacyFile
        } else {
            SaveStep::Done
        },
        SaveStep::RemoveLegacyFile => SaveStep::RemoveLegacyDir,
        SaveStep::RemoveLegacyDir => SaveStep::Done,
        SaveStep::Done => SaveStep::Done,
        SaveStep::Failed => SaveStep::Failed,
    }
}

/// The step reached after the first `n` outcomes of a save.
pub open spec fn save_step_at(outcomes: Seq<bool>, legacy_exists: bool, n: nat) -> SaveStep
    decreases n,
{
    if n == 0 {
        SaveStep::WriteTemporary
    } else {
        save_step_after(
            save_step_at(outcomes, legacy_exists, (n - 1) as nat),
            outcomes[n - 1],
            legacy_exists,
        )
    }
}

/// The legacy ledger is touched only once the new one was written and moved into place.
pub proof fn law_legacy_is_retired_last(outcomes: Seq<bool>, legacy_exists: bool, n: nat)
    requires
        save_step_at(outcomes, legacy_exists, n) is RemoveLegacyFile || save_step_at(
            outcomes,
            legacy_exists,
            n,
        ) is RemoveLegacyDir,
    ensures
        legacy_exists,
        n >= 3,
        save_step_at(outcomes, legacy_exists, 0) is WriteTemporary && outcomes[0],
        save_step_at(outcomes, legacy_exists, 2) is MoveIntoPlace && outcomes[2],
{
    let dir = save_step_at(outcomes, legacy_exists, n) is RemoveLegacyDir;
    // The step of deleting the legacy file, and the three in front of it.
    let k: nat = if dir {
        (n - 1) as nat
    } else {
        n
    };
    assert(save_step_at(outcomes, legacy_exists, k) is RemoveLegacyFile);
    assert(save_step_at(outcomes, legacy_exists, (k - 1) as nat) is MoveIntoPlace);
    assert(save_step_at(outcomes, legacy_exists, (k - 2) as nat) is RemoveOld);
    assert(save_step_at(outcomes, legacy_exists, (k - 3) as nat) is WriteTemporary);
    if k > 3 {
        assert(save_step_after(
            save_step_at(outcomes, legacy_exists, (k - 4) as nat),
            outcomes[k - 4],
            legacy_exists,
        ) is WriteTemporary);
        assert(false);
    }
}

/// What the files of the ledger hold, as far as they exist.
pub struct LedgerFiles {
    pub current: Option<Seq<char>>,
    pub temporary: Option<Seq<char>>,
    pub legacy: Option<Seq<char>>,
}

/// What a step of saving `text` leaves behind.
pub open spec fn ledger_files_after(files: LedgerFiles, text: Seq<char>, step: SaveStep, ok: bool) -> LedgerFiles {
    match step {
        SaveStep::WriteTemporary => if ok {
            LedgerFiles { temporary: Some(text), ..files }
        } else {
            files
        },
        SaveStep::RemoveOld => if ok {
            LedgerFiles { current: None, ..files }
        } else {
            files
        },
        SaveStep::MoveIntoPlace => if ok {
            LedgerFiles { current: files.temporary, temporary: None, ..files }
        } else {
            files
        },
        SaveStep::RemoveLegacyFile => if ok {
            LedgerFiles { legacy: None, ..files }
        } else {
            files
        },
        _ => files,
    }
}

/// What the files of the ledger hold after the first `n` outcomes of saving `text`.
pub open spec fn ledger_files_at(files: LedgerFiles, text: Seq<char>, outcomes: Seq<bool>, n: nat) -> LedgerFiles
    decreases n,
{
    if n == 0 {
        files
    } else {
        let k = (n - 1) as nat;
        ledger_files_after(
            ledger_files_at(files, text, outcomes, k),
            text,
            save_step_at(outcomes, files.legacy is Some, k),
            outcomes[n - 1],
        )
    }
}

/// What is read after a save is what was saved: once a save is done, the ledger that counts is the
/// text that was written, whatever ledgers were there before and whichever deletions failed.
pub proof fn law_saved_ledger_is_read_back(files: LedgerFiles, text: Seq<char>, outcomes: Seq<bool>, n: nat)
    ensures
        ({
            let step = save_step_at(outcomes, files.legacy is Some, n);
            let after = ledger_files_at(files, text, outcomes, n);
            &&& step is Done || step is RemoveLegacyFile || step is RemoveLegacyDir ==> after.current == Some(text)
                && counting_ledger(after.current, after.legacy) == Some(text)
            &&& step is RemoveOld || step is MoveIntoPlace ==> after.temporary == Some(text)
        }),
    decreases n,
{
    if n > 0 {
        law_saved_ledger_is_read_back(files, text, outcomes, (n - 1) as nat);
    }
}

/// The current ledger counts wherever there is one, and the legacy one only where there is none.
pub proof fn law_current_ledger_wins(current: Option<String>, legacy: Option<String>, text: Option<String>)
    requires
        call_ensures(ledger_text, (current, legacy), text),
    ensures
        current is Some ==> text == current,
        current is None ==> text == legacy,
{
}

/// A ledger that cannot be read is an empty one, and one that can is taken as it is.
pub proof fn law_unreadable_ledger_is_empty(parsed: Option<State>, state: State)
    requires
        call_ensures(state_or_default, (parsed,), state),
    ensures
        parsed is Some ==> state == parsed->0,
        parsed is None ==> state.files@.dom() == Set::<Seq<char>>::empty() && state.version@.len() == 0,
{
    if parsed is None {
        assert(state.files@.dom() =~= Set::<Seq<char>>::empty());
    }
}

/// What is recorded after a sync: the version of the release; for every file of the platform that is not
/// retired, the hash that the release gives it; nothing for a retired path; and for any other path what
/// was recorded before.
pub proof fn law_record_is_of_the_release(state: State, release: Manifest, os: Os, after: State, i: int)
    requires
        call_ensures(State::record, (state, &release, os), after),
        0 <= i < manifest::wanted_files(release.files@, os).len(),
        !text::views(release.removed@).contains(manifest::wanted_files(release.files@, os)[i].path@),
        forall|j: int|
            i < j < manifest::wanted_files(release.files@, os).len() ==> (#[trigger] manifest::wanted_files(
                release.files@,
                os,
            )[j]).path@ != manifest::wanted_files(release.files@, os)[i].path@,
    ensures
        after.version@ == release.version@,
        ({
            let entry = manifest::wanted_files(release.files@, os)[i];
            after.files@.contains_key(entry.path@) && after.files@[entry.path@]@ == entry.hash@
        }),
        forall|k: int|
            0 <= k < release.removed@.len() ==> !after.files@.contains_key((#[trigger] release.removed@[k])@),
{
    let files = manifest::wanted_files(release.files@, os);
    let removed = text::views(release.removed@);
    law_synced_ledger(state.files@, files, removed, files[i].path@);
    assert(files[i].path@ == files[i].path@);
    assert forall|k: int| 0 <= k < release.removed@.len() implies !after.files@.contains_key(
        (#[trigger] release.removed@[k])@,
    ) by {
        assert(removed[k] == release.removed@[k]@);
        law_synced_ledger(state.files@, files, removed, removed[k]);
    }
}

/// The ledger lies in the install directory, the temporary one next to it, and the legacy one in a
/// directory of its own: three different files.
pub proof fn law_ledgers_lie_in_the_install_dir(dir: InstallPath, files: (InstallPath, InstallPath, InstallPath))
    requires
        call_ensures(state_path, (&dir,), files.0),
        call_ensures(temporary_state_path, (&dir,), files.1),
        call_ensures(legacy_state_path, (&dir,), files.2),
        !paths::is_verbatim(dir@),
    ensures
        files.0@ == dir@.push(paths::Part::Normal("quakers-launcher.json"@)),
        files.1@ == dir@.push(paths::Part::Normal("quakers-launcher.json.tmp"@)),
        files.2@ == dir@.push(paths::Part::Normal(".quakers-launcher"@)).push(paths::Part::Normal("state.json"@)),
        files.0@ != files.1@,
        files.0@ != files.2@,
        files.1@ != files.2@,
{
    reveal_strlit("quakers-launcher.json");
    reveal_strlit("quakers-launcher.json.tmp");
    assert("quakers-launcher.json"@.len() != "quakers-launcher.json.tmp"@.len());
    assert(files.0@[dir@.len() as int] == paths::Part::Normal("quakers-launcher.json"@));
    assert(files.1@[dir@.len() as int] == paths::Part::Normal("quakers-launcher.json.tmp"@));
    assert(files.2@.len() == dir@.len() + 2);
}

/// A save goes through its steps in order: written beside the old ledger first, which then makes room for
/// it. It is done where the writing and the moving went well, whatever became of the deletions, and has
/// failed where one of them did not. The legacy ledger goes last, where there is one.
pub proof fn law_save_goes_through(outcomes: Seq<bool>, legacy_exists: bool)
    ensures
        save_step_at(outcomes, legacy_exists, 0) is WriteTemporary,
        !outcomes[0] ==> save_step_at(outcomes, legacy_exists, 1) is Failed,
        outcomes[0] ==> save_step_at(outcomes, legacy_exists, 1) is RemoveOld && save_step_at(outcomes, legacy_exists, 2) is MoveIntoPlace,
        outcomes[0] && !outcomes[2] ==> save_step_at(outcomes, legacy_exists, 3) is Failed,
        outcomes[0] && outcomes[2] && !legacy_exists ==> save_step_at(outcomes, legacy_exists, 3) is Done,
        outcomes[0] && outcomes[2] && legacy_exists ==> save_step_at(outcomes, legacy_exists, 3) is RemoveLegacyFile
            && save_step_at(outcomes, legacy_exists, 4) is RemoveLegacyDir && save_step_at(outcomes, legacy_exists, 5) is Done,
{
    reveal_with_fuel(save_step_at, 6);
}

/// A ledger that could not be written costs nothing: what was there counts as before.
pub proof fn law_failed_write_keeps_the_ledger(files: LedgerFiles, text: Seq<char>, outcomes: Seq<bool>, n: nat)
    requires
        !outcomes[0],
    ensures
        ledger_files_at(files, text, outcomes, n) == files,
        n > 0 ==> save_step_at(outcomes, files.legacy is Some, n) is Failed,
    decreases n,
{
    reveal_with_fuel(save_step_at, 2);
    reveal_with_fuel(ledger_files_at, 2);
    if n > 1 {
        law_failed_write_keeps_the_ledger(files, text, outcomes, (n - 1) as nat);
    }
}

/// A save as it is carried out follows its course.
pub proof fn law_save_follows_its_course(step: SaveStep, ok: bool, legacy_exists: bool, next: SaveStep)
    requires
        call_ensures(next_save_step, (step, ok, legacy_exists), next),
    ensures
        next == save_step_after(step, ok, legacy_exists),
        step is WriteTemporary ==> (next is RemoveOld <==> ok),
        step is MoveIntoPlace && !ok ==> next is Failed,
{
}

} // verus!
