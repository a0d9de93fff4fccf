use quakers_launcher::install::{
    absolutise, container_reason_in, default_install_dir, is_safe_relpath, prune_removed, resolve_install_dir, Removal,
    INSTALL_FOLDER_NAME,
};
use quakers_launcher::manifest::Os;
use quakers_launcher::paths::{Component, InstallPath};

fn p(s: &str) -> InstallPath {
    InstallPath::parse(s)
}

/// A Windows path such as `C:\Users\Lex`, taken apart by hand.
fn win(s: &str) -> InstallPath {
    let mut components = Vec::new();
    for (i, piece) in s.split('\\').enumerate() {
        if i == 0 {
            components.push(Component::Prefix(piece.to_string()));
            components.push(Component::RootDir);
        } else if !piece.is_empty() {
            components.push(Component::Normal(piece.to_string()));
        }
    }
    InstallPath { components }
}

fn last_name(dir: &InstallPath) -> String {
    match dir.components.last() {
        Some(Component::Normal(name)) => name.clone(),
        other => panic!("no name at the end: {other:?}"),
    }
}

#[test]
fn rejects_container_folders() {
    let h = p("/home/lex");
    for b in ["/home/lex/Desktop", "/home/lex/Downloads", "/home/lex/Documents", "/home/lex", "/"] {
        assert!(container_reason_in(&p(b), Some(&h)).is_some(), "should have been rejected: {b}");
    }
    let h = win(r"C:\Users\Lex");
    for b in [
        r"C:\Users\Lex\Desktop",
        r"C:\Users\Lex\Downloads",
        r"C:\Users\Lex\Documents",
        r"C:\Users\Lex\Pictures",
        r"C:\Users\Lex\OneDrive\Desktop", // redirected Desktop
        r"C:\Users\Lex\OneDrive",
        r"C:\Users\Lex", // the home folder itself
        r"C:\",          // drive root
        r"C:\Program Files\Quakers", // system location
        r"C:\Windows\Temp",
    ] {
        assert!(container_reason_in(&win(b), Some(&h)).is_some(), "should have been rejected: {b}");
    }
}

#[test]
fn accepts_real_install_dirs() {
    let h = p("/home/lex");
    for g in ["/home/lex/Desktop/Quakers", "/home/lex/games/quakers", "/opt/quakers"] {
        assert!(container_reason_in(&p(g), Some(&h)).is_none(), "should have been accepted: {g}");
    }
    let h = win(r"C:\Users\Lex");
    for g in [
        r"C:\Users\Lex\Desktop\Quakers", // the redirect target itself
        r"C:\Games\Quakers",
        r"C:\Users\Lex\quakerstest",
        r"D:\Quakers",
    ] {
        assert!(container_reason_in(&win(g), Some(&h)).is_none(), "should have been accepted: {g}");
    }
}

#[test]
fn reasons_are_worded() {
    let h = p("/home/lex");
    let why = |s: &str| container_reason_in(&p(s), Some(&h));
    assert_eq!(why("/").as_deref(), Some("a drive root"));
    assert_eq!(why("quakers").as_deref(), Some("a drive root"));
    assert_eq!(why("").as_deref(), Some("a drive root"));
    assert_eq!(why("/home/lex").as_deref(), Some("your home folder"));
    assert_eq!(why("/home/lex/Desktop").as_deref(), Some("your desktop folder"));
    assert_eq!(why("/home/lex/DOWNLOADS").as_deref(), Some("your download folder"));
    assert_eq!(why("/home/lex/Google Drive").as_deref(), Some("your google drive folder"));
    assert_eq!(why("/mnt/c/Program Files/x").as_deref(), Some("a system folder"));
    assert_eq!(why("/mnt/c/ProgramData/x").as_deref(), Some("a system folder"));
    assert_eq!(why("/srv/games"), None);
    assert_eq!(container_reason_in(&p("/home/lex"), None), None);
}

#[test]
fn letter_case_is_folded_like_lower_casing() {
    // The only characters whose lower-case form is ASCII are ASCII themselves, or the Kelvin sign.
    for code in 0..=0x10ffffu32 {
        if let Some(c) = char::from_u32(code) {
            let lower: String = c.to_lowercase().collect();
            if lower.is_ascii() {
                assert!(c.is_ascii() || c == '\u{212a}', "{c:?} lowers to {lower}");
            }
        }
    }
    for c in 0..128u8 {
        let name = format!("des{}top", c as char);
        let expected = name.to_lowercase() == "desktop";
        let dir = InstallPath {
            components: vec![Component::RootDir, Component::Normal("a".to_string()), Component::Normal(name)],
        };
        assert_eq!(container_reason_in(&dir, None).is_some(), expected);
    }
    assert_eq!(
        container_reason_in(&p("/home/lex/Des\u{212a}top"), None).as_deref(),
        Some("your desktop folder")
    );
    assert_eq!(container_reason_in(&p("/home/lex/Mus\u{130}c"), None), None);
}

/// `install_dir = "."` must mean "install right here", not "you are at a drive root, have a
/// subfolder".
#[test]
fn relative_install_dir_is_resolved_before_the_guard() {
    let cwd = p("/games/quakers");
    for rel in [".", "./"] {
        let (dir, why) = resolve_install_dir(&p(rel), Some(&cwd), None, Os::Linux, false);
        assert!(why.is_none(), "{rel} should not be flagged as a container: {why:?}");
        assert!(dir.is_absolute(Os::Linux), "{rel} should resolve to an absolute path, got {dir:?}");
        assert!(last_name(&dir) != INSTALL_FOLDER_NAME, "{rel} was redirected into a subfolder: {dir:?}");
        assert!(dir.equals(&cwd), "{rel} should resolve to exactly the current directory");
        assert!(
            !dir.text().contains("/.") && !dir.text().contains("\\."),
            "resolved path kept a \".\" segment: {dir:?}"
        );
    }
}

#[test]
fn relative_paths_are_still_guarded_after_resolution() {
    let h = p("/home/lex");
    let desktop = h.join(&p("Desktop"));
    assert!(
        container_reason_in(&desktop, Some(&h)).is_some(),
        "an absolutised Desktop must still be rejected"
    );
    let (dir, why) = resolve_install_dir(&p("./Desktop"), Some(&h), Some(&h), Os::Linux, false);
    assert_eq!(dir.text(), "/home/lex/Desktop/Quakers");
    assert_eq!(why.as_deref(), Some("your desktop folder"));
}

#[test]
fn redirect_creates_one_level_and_is_stable() {
    for (desktop, h, os) in [
        (p("/home/lex/Desktop"), p("/home/lex"), Os::Linux),
        (win(r"C:\Users\Lex\Desktop"), win(r"C:\Users\Lex"), Os::Windows),
    ] {
        let (dir, why) = resolve_install_dir(&desktop, None, Some(&h), os, false);
        assert!(why.is_some());
        assert_eq!(last_name(&dir), INSTALL_FOLDER_NAME);
        // and the redirect target must not itself redirect -- no Quakers/Quakers nesting
        assert!(container_reason_in(&dir, Some(&h)).is_none());
        let (again, why2) = resolve_install_dir(&dir, None, Some(&h), os, false);
        assert!(again.equals(&dir));
        assert!(why2.is_none());
    }
}

#[test]
fn override_flag_disables_the_guard() {
    for (desktop, os) in [(p("/home/lex/Desktop"), Os::Linux), (win(r"C:\Users\Lex\Desktop"), Os::Windows)] {
        let (dir, why) = resolve_install_dir(&desktop, None, None, os, true);
        assert!(dir.equals(&desktop));
        assert!(why.is_none());
    }
}

#[test]
fn removed_paths_are_validated() {
    for good in ["quakers/data/default.cfg", "quakers/default.cfg", "a", "a/b/c.txt"] {
        assert!(is_safe_relpath(good), "should be accepted: {good}");
    }
    for bad in [
        "",
        "/etc/passwd",
        "../outside.txt",
        "quakers/../../outside.txt",
        "quakers/./x",
        "C:/Windows/system32/x.dll",
        r"quakers\data\x.cfg",
        "quakers//x",
        "quakers/",
    ] {
        assert!(!is_safe_relpath(bad), "should be rejected: {bad}");
    }
}

#[test]
fn pruning_stays_inside_the_install_root() {
    let root = p("/opt/quakers");
    let removed = vec!["a/b/c.txt".to_string(), "../x".to_string(), "top".to_string()];
    let steps = prune_removed(&removed, &root);
    assert_eq!(steps.len(), 3);
    match &steps[0] {
        Removal::Delete { file, dirs } => {
            assert_eq!(file.text(), "/opt/quakers/a/b/c.txt");
            let dirs: Vec<String> = dirs.iter().map(|d| d.text()).collect();
            assert_eq!(dirs, vec!["/opt/quakers/a/b", "/opt/quakers/a"]);
        }
        other => panic!("{other:?}"),
    }
    match &steps[1] {
        Removal::Ignore { path } => assert_eq!(path, "../x"),
        other => panic!("{other:?}"),
    }
    match &steps[2] {
        Removal::Delete { file, dirs } => {
            assert_eq!(file.text(), "/opt/quakers/top");
            assert!(dirs.is_empty());
        }
        other => panic!("{other:?}"),
    }
}

#[test]
fn paths_are_taken_apart_like_the_platform_does() {
    for s in ["/a//b/./c/", "a/../b", "./x", ".", "", "/", "a/b/.", "..", "/./a", "a//./b"] {
        let expected: Vec<String> = std::path::Path::new(s)
            .components()
            .map(|c| c.as_os_str().to_string_lossy().into_owned())
            .collect();
        let got: Vec<String> = p(s)
            .components
            .iter()
            .map(|c| match c {
                Component::Prefix(x) | Component::Normal(x) => x.clone(),
                Component::RootDir => "/".to_string(),
                Component::CurDir => ".".to_string(),
                Component::ParentDir => "..".to_string(),
            })
            .collect();
        assert_eq!(got, expected, "{s}");
    }
}

#[test]
fn joining_follows_the_platform() {
    for base in ["/a/b", "a", ".", ""] {
        for more in ["c", "./c", "../c", "/c", ".", ""] {
            let expected: std::path::PathBuf = std::path::Path::new(base).join(more).components().collect();
            let got = p(base).join(&p(more)).recollect();
            assert_eq!(got.text(), expected.to_string_lossy(), "{base} + {more}");
        }
    }
    assert_eq!(win(r"C:\a").join(&p("/b")).text(), "C:/b");
    assert_eq!(p("/a").join(&win(r"D:\b")).text(), "D:/b");
    let verbatim = InstallPath {
        components: vec![
            Component::Prefix(r"\\?\C:".to_string()),
            Component::RootDir,
            Component::Normal("a".to_string()),
        ],
    };
    assert_eq!(verbatim.join(&p("../b/./c")).text(), r"\\?\C:/b/c");
}

#[test]
fn parents_follow_the_platform() {
    for s in ["/a/b", "/a", "/", "a", "", ".", "..", "a/.."] {
        let expected = std::path::Path::new(s).parent().map(|d| d.to_string_lossy().into_owned());
        assert_eq!(p(s).parent().map(|d| d.text()), expected, "{s}");
    }
    assert!(p("/a/b").is_within(&p("/a")));
    assert!(p("/a").is_within(&p("/a")));
    assert!(!p("/ab").is_within(&p("/a")));
    assert!(!p("/").is_within(&p("/a")));
}

#[test]
fn drive_letters_are_compared_without_case() {
    assert!(win(r"c:\q").equals(&win(r"C:\q")));
    assert!(!win(r"c:\q").equals(&win(r"D:\q")));
    assert!(!win(r"C:\Q").equals(&win(r"C:\q")));
    assert!(win(r"c:\q\x").is_within(&win(r"C:\q")));
    let verbatim = |s: &str| InstallPath { components: vec![Component::Prefix(s.to_string()), Component::RootDir] };
    assert!(verbatim(r"\\?\c:").equals(&verbatim(r"\\?\C:")));
    assert!(!verbatim(r"\\?\c:").equals(&verbatim("C:")));
    assert!(!verbatim(r"\\a\x").equals(&verbatim(r"\\A\x")));
    assert_eq!(container_reason_in(&win(r"c:\q"), Some(&win(r"C:\q"))).as_deref(), Some("your home folder"));
    // the separators of a network prefix do not count, those of a verbatim one do
    assert!(verbatim("//server/share").equals(&verbatim(r"\\server\share")));
    assert!(verbatim(r"\\server/share").equals(&verbatim(r"\\server\share")));
    assert!(!verbatim("//server/share").equals(&verbatim(r"\\server\other")));
    assert!(verbatim("//./COM1").equals(&verbatim(r"\\.\COM1")));
    assert!(!verbatim("//?/C:").equals(&verbatim(r"\\?\C:")));
    // shown as it was given
    assert_eq!(win(r"c:\q").text(), "c:/q");
}

#[test]
fn defaults_to_the_launchers_folder() {
    assert_eq!(default_install_dir(Some(&p("/games/q/launcher"))).text(), "/games/q");
    assert_eq!(default_install_dir(Some(&p("/"))).text(), ".");
    assert_eq!(default_install_dir(None).text(), ".");
}

#[test]
fn absolute_paths_stay_and_unknown_directories_do_not_matter() {
    assert_eq!(absolutise(&p("/a/./b/"), Some(&p("/x")), Os::Linux).text(), "/a/b");
    assert_eq!(absolutise(&p("a/b"), Some(&p("/x")), Os::Linux).text(), "/x/a/b");
    assert_eq!(absolutise(&p("a/b"), None, Os::Linux).text(), "a/b");
    assert!(win(r"C:\a").is_absolute(Os::Windows));
    assert!(!p("/a").is_absolute(Os::Windows));
    assert!(p("/a").is_absolute(Os::Linux));
    assert!(!p("a").is_absolute(Os::Linux));
}

#[test]
fn a_dot_behind_a_drive_is_kept() {
    let drive = |rest: Vec<Component>| {
        let mut components = vec![Component::Prefix("C:".to_string())];
        components.extend(rest);
        InstallPath { components }
    };
    let here = drive(vec![Component::CurDir]);
    assert!(here.recollect().equals(&here));
    assert!(drive(vec![]).join(&p(".")).equals(&here));
    assert!(!here.is_absolute(Os::Windows));

    // behind anything else it goes
    let named = drive(vec![Component::Normal("games".to_string())]);
    assert!(named.join(&p(".")).equals(&named));
    assert!(win(r"C:\games").join(&p(".")).equals(&win(r"C:\games")));
}

#[test]
fn a_bare_verbatim_prefix_has_a_root() {
    let bare = InstallPath { components: vec![Component::Prefix(r"\\?\C:".to_string())] };
    let root = InstallPath { components: vec![Component::Prefix(r"\\?\C:".to_string()), Component::RootDir] };
    let games = root.child("games");
    assert!(bare.is_absolute(Os::Windows));
    assert!(!bare.is_absolute(Os::Linux));
    assert!(!InstallPath { components: vec![Component::Prefix("C:".to_string())] }.is_absolute(Os::Windows));
    assert_eq!(games.components.len(), 3);
    assert!(bare.child("games").equals(&games));
    assert!(bare.join(&p("games")).equals(&games));
    assert!(bare.join(&p("./games/../games")).equals(&games));
    assert!(bare.join(&p("")).equals(&root));
    assert!(bare.join(&p(".")).equals(&bare));
}
