use quakers_launcher::manifest::{
    default_exec, default_exec_cmd, default_layout, default_platform, platform_key, Exec, FileEntry, Manifest, Os,
};
use quakers_launcher::paths::InstallPath;
use quakers_launcher::state::{
    ledger_text, legacy_state_path, next_save_step, state_or_default, state_path, temporary_state_path, SaveStep, State,
};
use quakers_launcher::string_map::StringMap;

fn entry(path: &str, size: u64, hash: &str, platform: &str) -> FileEntry {
    FileEntry {
        path: path.to_string(),
        size,
        hash: hash.to_string(),
        component: "game".to_string(),
        platform: platform.to_string(),
        executable: false,
    }
}

fn release(files: Vec<FileEntry>) -> Manifest {
    let mut exec_by_platform = StringMap::new();
    exec_by_platform.insert(
        "linux64".to_string(),
        Exec { cmd: "fteqw-gl64".to_string(), args: vec!["-x".to_string()] },
    );
    Manifest {
        schema: 2,
        channel: "alpha".to_string(),
        version: "2026.07.27_1".to_string(),
        created_utc: String::new(),
        hash_algo: "blake2b-256".to_string(),
        launcher_version: String::new(),
        install_root_name: String::new(),
        exec_default: Exec { cmd: "fteqw64.exe".to_string(), args: vec![] },
        exec_by_platform,
        mirrors: vec![],
        object_layout: default_layout(),
        total_files: 0,
        total_bytes: 0,
        files,
        removed: vec!["gone".to_string()],
    }
}

#[test]
fn platforms_have_keys() {
    assert_eq!(platform_key(Os::Windows), "win64");
    assert_eq!(platform_key(Os::Linux), "linux64");
    assert_eq!(platform_key(Os::MacOs), "macos64");
    assert_eq!(platform_key(Os::Other), "unknown");
    assert_eq!(default_exec_cmd(Os::Windows), "fteqw64.exe");
    assert_eq!(default_exec_cmd(Os::Linux), "fteqw-gl64");
    assert_eq!(default_exec(Os::Windows).cmd, "fteqw64.exe");
    assert_eq!(default_exec(Os::Linux).args, vec!["-manifest", "default.fmf"]);
    assert_eq!(default_layout(), "objects/{h0h1}/{hash}");
    assert_eq!(default_platform(), "all");
}

#[test]
fn objects_are_laid_out_by_hash() {
    assert_eq!(entry("a", 1, "373c05", "all").object_rel(), "objects/37/373c05");
    assert_eq!(entry("a", 1, "3", "all").object_rel(), "objects/00/3");
    assert_eq!(entry("a", 1, "", "all").object_rel(), "objects/00/");
}

#[test]
fn each_platform_gets_its_slice() {
    let m = release(vec![entry("a", 10, "h", "all"), entry("w", 20, "h", "win64"), entry("l", 30, "h", "linux64")]);
    let names = |os| m.files_for_platform(os).iter().map(|f| f.path.clone()).collect::<Vec<_>>();
    assert_eq!(names(Os::Linux), vec!["a", "l"]);
    assert_eq!(names(Os::Windows), vec!["a", "w"]);
    assert_eq!(names(Os::Other), vec!["a"]);
    assert_eq!(m.platform_totals(Os::Linux), Some((2, 40)));
    assert_eq!(m.exec_for_platform(Os::Linux).cmd, "fteqw-gl64");
    assert_eq!(m.exec_for_platform(Os::Windows).cmd, "fteqw64.exe");
    assert_eq!(m.exec_for_platform(Os::Linux).clone().args, vec!["-x"]);
    let huge = release(vec![entry("a", u64::MAX, "h", "all"), entry("b", 1, "h", "all")]);
    assert_eq!(huge.platform_totals(Os::Linux), None);
}

#[test]
fn the_ledger_records_what_is_installed() {
    let m = release(vec![entry("a", 1, "h1", "all"), entry("w", 1, "h2", "win64"), entry("gone", 1, "h3", "all")]);
    let mut st = State::default();
    st.files.insert("old".to_string(), "x".to_string());
    st.files.insert("gone".to_string(), "y".to_string());
    let st = st.record(&m, Os::Linux);
    assert_eq!(st.version, "2026.07.27_1");
    assert_eq!(st.files.get("a").map(String::as_str), Some("h1"));
    assert_eq!(st.files.get("old").map(String::as_str), Some("x"));
    assert_eq!(st.files.get("w"), None);
    assert_eq!(st.files.get("gone"), None);
    assert_eq!(st.files.len(), 2);
}

#[test]
fn the_map_keeps_its_keys_in_order() {
    let mut m: StringMap<u32> = StringMap::new();
    for (k, v) in [("b", 1), ("a", 2), ("é", 3), ("b", 4), ("", 5)] {
        m.insert(k.to_string(), v);
    }
    let keys: Vec<&str> = (0..m.len()).map(|i| m.key_at(i).as_str()).collect();
    assert_eq!(keys, vec!["", "a", "b", "é"]);
    assert_eq!(*m.value_at(2), 4);
    m.remove("b");
    m.remove("nothing");
    assert_eq!(m.get("b"), None);
    assert_eq!(m.get("a"), Some(&2));
    assert_eq!(m.len(), 3);
}

#[test]
fn the_ledger_has_its_places() {
    let dir = InstallPath::parse("/opt/quakers");
    assert_eq!(state_path(&dir).text(), "/opt/quakers/quakers-launcher.json");
    assert_eq!(temporary_state_path(&dir).text(), "/opt/quakers/quakers-launcher.json.tmp");
    assert_eq!(legacy_state_path(&dir).text(), "/opt/quakers/.quakers-launcher/state.json");
}

#[test]
fn the_legacy_ledger_is_read_when_there_is_no_other() {
    let some = |s: &str| Some(s.to_string());
    assert_eq!(ledger_text(some("new"), some("old")), some("new"));
    assert_eq!(ledger_text(None, some("old")), some("old"));
    assert_eq!(ledger_text(None, None), None);
    assert_eq!(state_or_default(None).files.len(), 0);
    let st = State { version: "old".to_string(), files: StringMap::new() };
    assert_eq!(state_or_default(Some(st)).version, "old");
}

#[test]
fn the_legacy_ledger_is_retired_once_the_new_one_is_in_place() {
    let mut step = SaveStep::WriteTemporary;
    let mut seen = vec![step];
    while !matches!(step, SaveStep::Done | SaveStep::Failed) {
        step = next_save_step(step, true, true);
        seen.push(step);
    }
    assert_eq!(
        seen,
        vec![
            SaveStep::WriteTemporary,
            SaveStep::RemoveOld,
            SaveStep::MoveIntoPlace,
            SaveStep::RemoveLegacyFile,
            SaveStep::RemoveLegacyDir,
            SaveStep::Done,
        ]
    );
    assert_eq!(next_save_step(SaveStep::WriteTemporary, false, true), SaveStep::Failed);
    assert_eq!(next_save_step(SaveStep::MoveIntoPlace, false, true), SaveStep::Failed);
    assert_eq!(next_save_step(SaveStep::RemoveOld, false, true), SaveStep::MoveIntoPlace);
    assert_eq!(next_save_step(SaveStep::MoveIntoPlace, true, false), SaveStep::Done);
}
