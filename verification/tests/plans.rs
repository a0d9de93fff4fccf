use quakers_launcher::manifest::{Exec, FileEntry, Manifest, Os};
use quakers_launcher::plan::{
    build, downloaded_mode, ensure_exec_bits, executables, needs_hash, priority, queue_order, repaired_mode, LocalFile,
};
use quakers_launcher::state::State;
use quakers_launcher::string_map::StringMap;

fn e(path: &str, component: &str) -> FileEntry {
    FileEntry {
        path: path.to_string(),
        size: 1,
        hash: String::new(),
        component: component.to_string(),
        platform: "all".to_string(),
        executable: false,
    }
}

fn release(files: Vec<FileEntry>) -> Manifest {
    Manifest {
        schema: 2,
        channel: "alpha".to_string(),
        version: "1".to_string(),
        created_utc: String::new(),
        hash_algo: "blake3".to_string(),
        launcher_version: String::new(),
        install_root_name: String::new(),
        exec_default: Exec { cmd: "fteqw64.exe".to_string(), args: vec![] },
        exec_by_platform: StringMap::new(),
        mirrors: vec![],
        object_layout: String::new(),
        total_files: 0,
        total_bytes: 0,
        files,
        removed: vec![],
    }
}

#[test]
fn tiers_match_the_intended_order() {
    // 0: the engine set, identified by component rather than by path
    assert_eq!(priority(&e("fteqw64.exe", "engine")), 0);
    assert_eq!(priority(&e("sqlite3.dll", "engine")), 0);
    assert_eq!(priority(&e("default.fmf", "engine")), 0);
    assert_eq!(priority(&e("fteplug_box3d_x64.dll", "engine")), 0);

    // 1: gamedir-root game data, by extension
    assert_eq!(priority(&e("quakers/qwprogs.dat", "game")), 1);
    assert_eq!(priority(&e("quakers/menu.dat", "game")), 1);
    assert_eq!(priority(&e("quakers/nettest.fgd", "game")), 1);
    assert_eq!(priority(&e("quakers/default.cfg", "game")), 1);
    assert_eq!(priority(&e("quakers/fs_addons.txt", "game")), 1);

    // 2: the config directory, under either name
    assert_eq!(priority(&e("quakers/cfg/default.cfg", "game")), 2);
    assert_eq!(priority(&e("quakers/cfg/scripts/sprays.shader", "game")), 2);
    assert_eq!(priority(&e("quakers/data/server.cfg", "game")), 2);

    // 3: bulk content
    assert_eq!(priority(&e("quakers/gfx/blobshadow.png", "game")), 3);
    assert_eq!(priority(&e("quakers/models/props/x.iqm", "game")), 3);
}

#[test]
fn top_level_packs_are_not_prioritised() {
    for p in [
        "quakers/ambientcg_01.pk3",
        "quakers/ambientcg_02.pk3",
        "quakers/polyhaven_props_04.pk3",
        "quakers/quakers_csprogs.pk3",
    ] {
        assert_eq!(priority(&e(p, "game")), 3, "{p} must not be prioritised");
    }
}

#[test]
fn sort_puts_the_small_important_files_first() {
    let v = vec![
        e("quakers/ambientcg_01.pk3", "game"),
        e("quakers/gfx/a.png", "game"),
        e("quakers/cfg/server.cfg", "game"),
        e("quakers/qwprogs.dat", "game"),
        e("fteqw64.exe", "engine"),
    ];
    let v = queue_order(v);
    let order: Vec<&str> = v.iter().map(|x| x.path.as_str()).collect();
    assert_eq!(
        order,
        vec![
            "fteqw64.exe",
            "quakers/qwprogs.dat",
            "quakers/cfg/server.cfg",
            "quakers/ambientcg_01.pk3",
            "quakers/gfx/a.png",
        ]
    );
}

#[test]
fn ties_break_on_path() {
    let v = vec![e("quakers/zz.dat", "game"), e("quakers/aa.cfg", "game"), e("quakers/mm.fgd", "game")];
    let v = queue_order(v);
    let order: Vec<&str> = v.iter().map(|x| x.path.as_str()).collect();
    assert_eq!(order, vec!["quakers/aa.cfg", "quakers/mm.fgd", "quakers/zz.dat"]);
}

#[test]
fn queue_matches_a_stable_sort() {
    let names = ["b", "a/x.dat", "a/cfg/x", "a/b/é", "a/b/z", "a/b/Z", "a/x.pk3", "c", "a/x.dat", "a/data/y", "a/b/𝄞"];
    let mut v = Vec::new();
    for round in 0..3u64 {
        for (i, n) in names.iter().enumerate() {
            let mut f = e(n, if i % 4 == 0 { "engine" } else { "game" });
            f.size = round;
            v.push(f);
        }
    }
    let mut expected = v.clone();
    expected.sort_by(|a, b| priority(a).cmp(&priority(b)).then_with(|| a.path.cmp(&b.path)));
    let got = queue_order(v);
    let key = |f: &FileEntry| (f.path.clone(), f.size);
    assert_eq!(
        got.iter().map(key).collect::<Vec<_>>(),
        expected.iter().map(key).collect::<Vec<_>>()
    );
}

#[test]
fn plan_fetches_what_is_missing_or_changed() {
    let mut files = Vec::new();
    for (i, path) in ["missing", "short", "changed", "trusted", "kept"].iter().enumerate() {
        let mut f = e(path, "game");
        f.size = 10 + i as u64;
        f.hash = format!("h{i}");
        files.push(f);
    }
    let mut other = e("other", "game");
    other.platform = "win64".to_string();
    files.push(other);
    let m = release(files);
    let mut st = State::default();
    st.files.insert("changed".to_string(), "old".to_string());
    st.files.insert("kept".to_string(), "h4".to_string());
    let present = |size| LocalFile::Present { size, hash: None };
    let local = vec![LocalFile::Missing, present(3), present(12), present(13), present(14)];
    let plan = build(&m, Os::Linux, &local, &st, false);
    let paths: Vec<&str> = plan.to_download.iter().map(|f| f.path.as_str()).collect();
    assert_eq!(paths, vec!["changed", "missing", "short"]);
    assert_eq!(plan.up_to_date, 2);
    assert_eq!(plan.bytes_to_download, 10 + 11 + 12);
}

#[test]
fn verification_ignores_the_ledger() {
    let mut good = e("good", "game");
    good.hash = "h".to_string();
    let mut bad = e("bad", "game");
    bad.hash = "h".to_string();
    assert!(needs_hash(&good, 1, true));
    assert!(!needs_hash(&good, 2, true));
    assert!(!needs_hash(&good, 1, false));
    let m = release(vec![good, bad]);
    let mut st = State::default();
    st.files.insert("good".to_string(), "stale".to_string());
    st.files.insert("bad".to_string(), "h".to_string());
    let local = vec![
        LocalFile::Present { size: 1, hash: Some("h".to_string()) },
        LocalFile::Present { size: 1, hash: Some("x".to_string()) },
    ];
    let plan = build(&m, Os::Linux, &local, &st, true);
    assert_eq!(plan.to_download.len(), 1);
    assert_eq!(plan.to_download[0].path, "bad");
    assert_eq!(plan.up_to_date, 1);
    let other = build(&m, Os::Linux, &local, &State::default(), true);
    assert_eq!(other.to_download.len(), 1);
    assert_eq!(other.to_download[0].path, "bad");
}

#[test]
fn a_recorded_install_has_nothing_to_fetch() {
    let mut f = e("quakers/a.dat", "game");
    f.hash = "h1".to_string();
    let mut g = e("quakers/b.dat", "game");
    g.hash = "h2".to_string();
    let m = release(vec![f, g]);
    let st = State::default().record(&m, Os::Linux);
    assert_eq!(st.version, "1");
    for verify in [false, true] {
        let local = vec![
            LocalFile::Present { size: 1, hash: Some("h1".to_string()) },
            LocalFile::Present { size: 1, hash: Some("h2".to_string()) },
        ];
        let plan = build(&m, Os::Linux, &local, &st, verify);
        assert!(plan.to_download.is_empty());
        assert_eq!(plan.up_to_date, 2);
        assert_eq!(plan.bytes_to_download, 0);
    }
}

#[test]
fn execute_bits_are_repaired() {
    assert_eq!(repaired_mode(0o100644), Some(0o100755));
    assert_eq!(repaired_mode(0o100744), None);
    assert_eq!(repaired_mode(0), Some(0o755));
    let mut engine = e("fteqw-gl64", "engine");
    engine.executable = true;
    assert_eq!(downloaded_mode(&engine, 0o644), 0o755);
    assert_eq!(downloaded_mode(&e("x", "game"), 0o644), 0o644);
    let mut server = e("fteqw-sv64", "engine");
    server.executable = true;
    let m = release(vec![e("data", "game"), engine, server]);
    assert_eq!(executables(&m, Os::Linux).len(), 2);
    assert_eq!(
        ensure_exec_bits(&m, Os::Linux, &vec![Some(0o644), Some(0o755)]),
        vec![("fteqw-gl64".to_string(), 0o755)]
    );
    assert_eq!(ensure_exec_bits(&m, Os::Linux, &vec![None, Some(0o600)]), vec![("fteqw-sv64".to_string(), 0o755)]);
    assert!(ensure_exec_bits(&m, Os::Windows, &vec![Some(0o644), Some(0o644)]).is_empty());
}
