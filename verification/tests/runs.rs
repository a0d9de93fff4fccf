use quakers_launcher::config::{adjacent_path, candidates, install_dir_override, load, Config};
use quakers_launcher::confirm::{preset_answer, Dialog, Event, Key, Prompt, Reaction};
use quakers_launcher::manifest::{FileEntry, Os};
use quakers_launcher::paths::InstallPath;
use quakers_launcher::plan::Plan;
use quakers_launcher::report::{
    amount, banner_edge, banner_row, breakdown_row, cancelled, checking, download_error, downloaded, failure_count,
    failure_lines, game_not_found, joined_args, label, launch_context, planned_files, planned_rest, prompt_for, pruned, release,
    place, up_to_date, written_below,
};
use quakers_launcher::run::{creates_install_dir, first_step, next_step, Flags, Outcome, Step};
use quakers_launcher::settings::{
    channel, concurrency, download_mirrors, host_of, manifest_bases, manifest_url, requested_dir, ManifestSearch,
    DEFAULT_CHANNEL, DEFAULT_CONCURRENCY, DEFAULT_MIRRORS,
};

fn strings(list: &[&str]) -> Vec<String> {
    list.iter().map(|s| s.to_string()).collect()
}

#[test]
fn wording_differs_between_fresh_and_resume() {
    let fresh = Prompt::Fresh { dir: "C:/Games/Quakers".into(), files: 4249, bytes: 6_290_000_000 };
    let resume = Prompt::Resume { dir: "C:/Games/Quakers".into(), files: 19, bytes: 3_630_000_000, have: 4230 };
    assert_eq!(fresh.question(), "Download to C:/Games/Quakers?");
    assert_eq!(resume.question(), "Continue download?");
    assert_eq!(fresh.accept_label(), "Download");
    assert_eq!(resume.accept_label(), "Continue");
}

#[test]
fn detail_reports_gigabytes_and_existing_files() {
    let fresh = Prompt::Fresh { dir: "d".into(), files: 4249, bytes: 6_290_000_000 };
    assert!(fresh.detail().contains("4249 files"));
    assert!(fresh.detail().contains("6.29 GB"));
    let resume = Prompt::Resume { dir: "d".into(), files: 19, bytes: 3_630_000_000, have: 4230 };
    assert!(resume.detail().contains("4230 file(s) already"));
    assert!(resume.detail().contains("3.63 GB"));
}

#[test]
fn details_read_in_full() {
    let fresh = Prompt::Fresh { dir: "d".into(), files: 4249, bytes: 6_290_000_000 };
    assert_eq!(fresh.detail(), "4249 files · 6.29 GB to fetch");
    let resume = Prompt::Resume { dir: "d".into(), files: 19, bytes: 3_630_000_000, have: 4230 };
    assert_eq!(resume.detail(), "4230 file(s) already in d · 19 file(s) · 3.63 GB still to fetch");
    assert_eq!(fresh.options(true), [(true, "[ Download ]".to_string()), (false, "[ Cancel ]".to_string())]);
    assert_eq!(resume.options(false), [(false, "[ Continue ]".to_string()), (true, "[ Cancel ]".to_string())]);
}

#[test]
fn assume_yes_skips_the_prompt() {
    assert_eq!(preset_answer(true, true, true), Some(true));
    assert_eq!(preset_answer(false, false, true), Some(true));
    assert_eq!(preset_answer(false, true, false), Some(true));
    assert_eq!(preset_answer(false, true, true), None);
}

fn press(key: Key) -> Event {
    Event::Press { key }
}

fn react(event: Event, accept: bool) -> Reaction {
    Dialog { accept }.handle(event)
}

fn letter(c: char) -> Event {
    press(Key::Char { c, control: false })
}

#[test]
fn keys_answer_the_prompt() {
    for accept in [true, false] {
        for key in [Key::Up, Key::Down, Key::Left, Key::Right, Key::Tab] {
            assert_eq!(react(press(key), accept), Reaction::Toggle);
        }
        assert_eq!(react(press(Key::Enter), accept), Reaction::Answer { yes: accept });
        assert_eq!(react(letter(' '), accept), Reaction::Answer { yes: accept });
        for c in ['y', 'Y'] {
            assert_eq!(react(letter(c), accept), Reaction::Answer { yes: true });
        }
        for c in ['n', 'N', 'q'] {
            assert_eq!(react(letter(c), accept), Reaction::Answer { yes: false });
        }
        assert_eq!(react(press(Key::Esc), accept), Reaction::Answer { yes: false });
        assert_eq!(react(press(Key::Char { c: 'c', control: true }), accept), Reaction::Answer { yes: false });
        assert_eq!(react(letter('c'), accept), Reaction::Nothing);
        assert_eq!(react(letter('Q'), accept), Reaction::Nothing);
        assert_eq!(react(Event::Release { key: Key::Enter }, accept), Reaction::Nothing);
        assert_eq!(react(Event::Other, accept), Reaction::Nothing);
        assert_eq!(react(Event::Unreadable, accept), Reaction::Answer { yes: true });
    }
}

#[test]
fn releases_do_not_toggle_back() {
    let mut dialog = Dialog::new();
    assert!(dialog.accept);
    assert_eq!(dialog.handle(press(Key::Down)), Reaction::Toggle);
    assert_eq!(dialog.handle(Event::Release { key: Key::Down }), Reaction::Nothing);
    assert!(!dialog.accept);
    assert_eq!(dialog.handle(press(Key::Enter)), Reaction::Answer { yes: false });
    assert_eq!(Dialog::new().handle(press(Key::Enter)), Reaction::Answer { yes: true });
}

#[test]
fn absent_config_is_all_defaults() {
    let dir = InstallPath::parse("\u{0}definitely-not-a-real-directory");
    let found: Vec<Option<Config>> = candidates(None, &dir).iter().map(|_| None).collect();
    let cfg = load(found);
    assert!(cfg.mirrors.is_empty());
    assert!(cfg.channel.is_none());
    assert!(cfg.install_dir.is_none());
    assert!(cfg.concurrency.is_none());
}

fn pinned(channel: &str) -> Option<Config> {
    Some(Config { channel: Some(channel.to_string()), ..Config::default() })
}

#[test]
fn the_first_readable_config_counts() {
    assert_eq!(load(vec![pinned("a"), pinned("b")]).channel.as_deref(), Some("a"));
    assert_eq!(load(vec![None, pinned("b")]).channel.as_deref(), Some("b"));
    assert_eq!(load(vec![pinned("a"), None]).channel.as_deref(), Some("a"));
    assert_eq!(load(vec![]).channel, None);
}

#[test]
fn configs_lie_next_to_the_launcher_and_in_the_install_dir() {
    let exe = InstallPath::parse("/games/launcher");
    let dir = InstallPath::parse("/opt/quakers");
    let list: Vec<String> = candidates(Some(&exe), &dir).iter().map(|c| c.text()).collect();
    assert_eq!(list, vec!["/games/launcher.toml", "/opt/quakers/launcher.toml"]);
    assert_eq!(candidates(None, &dir).len(), 1);
    assert!(adjacent_path(Some(&InstallPath::parse("/"))).is_none());
    let c = Config { install_dir: Some(".".to_string()), ..Config::default() };
    assert_eq!(install_dir_override(Some(c)).as_deref(), Some("."));
    assert_eq!(install_dir_override(pinned("a")), None);
    assert_eq!(install_dir_override(None), None);
}

#[test]
fn arguments_win_over_config_and_defaults() {
    let (a, b) = ("a".to_string(), "b".to_string());
    assert_eq!(channel(Some(&a), Some(&b)), "a");
    assert_eq!(channel(None, Some(&b)), "b");
    assert_eq!(channel(None, None), DEFAULT_CHANNEL);
    assert_eq!(concurrency(Some(3), Some(4)), 3);
    assert_eq!(concurrency(None, Some(4)), 4);
    assert_eq!(concurrency(Some(0), Some(4)), 1);
    assert_eq!(concurrency(None, None), DEFAULT_CONCURRENCY);
    assert_eq!(DEFAULT_CONCURRENCY, 8);
    let (x, y, exe) = (InstallPath::parse("x"), InstallPath::parse("y"), InstallPath::parse("/q/launcher"));
    assert_eq!(requested_dir(Some(&x), Some(&y), Some(&exe)).text(), "x");
    assert_eq!(requested_dir(None, Some(&y), Some(&exe)).text(), "y");
    assert_eq!(requested_dir(None, None, Some(&exe)).text(), "/q");
}

#[test]
fn mirrors_come_in_order_of_precedence() {
    let none = strings(&[]);
    assert_eq!(manifest_bases(&none, &none), strings(&DEFAULT_MIRRORS));
    assert_eq!(manifest_bases(&strings(&["a"]), &strings(&["b"])), strings(&["a", "b"]));
    assert_eq!(
        download_mirrors(&strings(&["a"]), &strings(&["a", "b"]), &strings(&["b", "a"])),
        strings(&["a", "b", "a"])
    );
    assert_eq!(download_mirrors(&none, &none, &none), strings(&["https://dl.proto.bar"]));
    assert_eq!(
        download_mirrors(&none, &none, &strings(&["https://dl.proto.bar", "c"])),
        strings(&["https://dl.proto.bar", "c"])
    );
    assert_eq!(download_mirrors(&none, &strings(&["t"]), &strings(&["c"])), strings(&["t", "c"]));
}

#[test]
fn manifests_are_searched_on_every_mirror() {
    assert_eq!(manifest_url("https://dl.proto.bar//", "alpha"), "https://dl.proto.bar/manifests/alpha.json");
    let mut s = ManifestSearch::new(None, &strings(&["a/", "b"]), "beta");
    assert_eq!(s.current(), Some("a/manifests/beta.json"));
    s.note_failure("x".to_string());
    assert_eq!(s.current(), Some("b/manifests/beta.json"));
    s.note_failure("y".to_string());
    assert_eq!(s.current(), None);
    assert_eq!(
        s.failure(),
        "could not fetch manifest from any mirror:\n  a/manifests/beta.json: x\n  b/manifests/beta.json: y"
    );
    let url = "http://localhost/m.json".to_string();
    let mut s = ManifestSearch::new(Some(&url), &strings(&["a"]), "beta");
    assert_eq!(s.current(), Some("http://localhost/m.json"));
    s.note_failure("refused".to_string());
    assert_eq!(s.current(), None);
    assert_eq!(s.failure(), "fetch http://localhost/m.json: refused");
}

#[test]
fn hosts_are_cut_out_of_addresses() {
    assert_eq!(host_of("https://dl.proto.bar/manifests/alpha.json"), "dl.proto.bar");
    assert_eq!(host_of("dl.proto.bar/x"), "dl.proto.bar");
    assert_eq!(host_of("http://a"), "a");
    assert_eq!(host_of("a://b://c/d"), "b");
    assert_eq!(host_of(""), "");
}

fn plan(n: usize, up_to_date: u64) -> Plan {
    let to_download = (0..n)
        .map(|i| FileEntry {
            path: format!("f{i}"),
            size: 1_500_000,
            hash: String::new(),
            component: String::new(),
            platform: "all".to_string(),
            executable: false,
        })
        .collect();
    Plan { to_download, up_to_date, bytes_to_download: n as u64 * 1_500_000 }
}

#[test]
fn plans_are_listed_up_to_a_limit() {
    let lines = planned_files(&plan(41, 0));
    assert_eq!(lines.len(), 40);
    assert_eq!(lines[39], "f39 (1.5 MB)");
    assert_eq!(planned_rest(&plan(41, 0)).as_deref(), Some("… and 1 more"));
    assert_eq!(planned_files(&plan(2, 0)), strings(&["f0 (1.5 MB)", "f1 (1.5 MB)"]));
    assert_eq!(planned_rest(&plan(40, 0)), None);
}

#[test]
fn the_question_follows_the_plan() {
    match prompt_for(&plan(2, 0), "d".to_string()) {
        Prompt::Fresh { dir, files, bytes } => assert_eq!((dir.as_str(), files, bytes), ("d", 2, 3_000_000)),
        other => panic!("{other:?}"),
    }
    match prompt_for(&plan(2, 7), "d".to_string()) {
        Prompt::Resume { files, have, .. } => assert_eq!((files, have), (2, 7)),
        other => panic!("{other:?}"),
    }
}

#[test]
fn reports_are_worded() {
    assert_eq!(label("Mirror"), "Mirror     ");
    assert_eq!(amount(4249, 6_290_000_000), "4249 files · 6.29 GB");
    assert_eq!(release("alpha", "1"), "alpha · 1");
    assert_eq!(failure_count(3), "3 file(s) FAILED:");
    assert_eq!(download_error(3), "3 download(s) failed — re-run to resume/repair");
    assert_eq!(downloaded(12), "✓ Downloaded 12 file(s).");
    assert_eq!(pruned(0), None);
    assert_eq!(pruned(2).as_deref(), Some("✓ Removed 2 obsolete file(s)."));
    assert_eq!(joined_args(&strings(&["-manifest", "default.fmf"])), "-manifest default.fmf");
    assert_eq!(joined_args(&strings(&[])), "");
    let failed: Vec<(String, String)> = (0..25).map(|i| (format!("p{i}"), "e".to_string())).collect();
    let lines = failure_lines(&failed);
    assert_eq!(lines.len(), 20);
    assert_eq!(lines[19], "p19: e");
}

#[test]
fn launches_are_reported() {
    assert_eq!(game_not_found("/dev/null/q", "fteqw-gl64", Os::Linux), "game executable not found: /dev/null/q/fteqw-gl64");
    assert_eq!(game_not_found(r"C:\Games", "fteqw64.exe", Os::Windows), "game executable not found: C:/Games/fteqw64.exe");
    assert_eq!(game_not_found("/", "x", Os::Linux), "game executable not found: /x");
    assert_eq!(game_not_found("/q", "/bin/x", Os::Linux), "game executable not found: /bin/x");
    assert_eq!(game_not_found("", r"D:\x", Os::Windows), "game executable not found: D:/x");
    assert_eq!(launch_context("/q", "./x", Os::Linux), "spawn /q/./x");
    assert_eq!(cancelled(), "Cancelled — nothing was downloaded.");
    assert_eq!(up_to_date(), "✓ Everything is up to date.");
    assert_eq!(checking(true), "Verifying every file (full hash check)…");
    assert_eq!(checking(false), "Checking local files…");
}

#[test]
fn paths_are_written_as_the_platform_joins_them() {
    // a backslash is a character like any other here, and is shown as a slash only in the end
    for dir in ["d", "/", "/q", r"d\", "", "a/"] {
        for name in ["x", r"\x", "/x", "./x", "a//b", "", "c:x"] {
            let joined = std::path::Path::new(dir).join(name).display().to_string().replace('\\', "/");
            assert_eq!(place(dir, name, Os::Linux), joined, "{dir} + {name}");
        }
    }
    assert_eq!(place("d", r"\x", Os::Linux), "d//x");
    assert_eq!(place(r"C:\", "x", Os::Windows), "C:/x");
    assert_eq!(place("C:", "x", Os::Windows), "C:x");
    assert_eq!(place(r"\\s\d", r"a\x", Os::Windows), "//s/d/a/x");
    for name in [r"\x", "/x", r"C:\q\x", "d:x"] {
        assert!(!written_below(r"C:\q", name, Os::Windows), "{name}");
        assert!(written_below(r"C:\q", name, Os::Linux), "{name}");
        assert!(written_below("", name, Os::Windows), "{name}");
    }
    assert!(!written_below(r"\\?\C:\q", "x", Os::Windows));
    assert!(written_below(r"C:\q", "ab:c", Os::Windows));
}

#[test]
fn the_install_directory_waits_for_consent() {
    for step in [Step::Download, Step::Record] {
        assert!(creates_install_dir(step));
    }
    for flags in [PLAIN, Flags { dry_run: true, ..PLAIN }, Flags { launch_only: true, ..PLAIN }] {
        let seen = course(flags, &[(Step::Confirm, false)], true);
        assert!(seen.iter().all(|s| !creates_install_dir(*s)), "{seen:?}");
    }
    assert!(course(PLAIN, &[], false).contains(&Step::Record));
}

#[test]
fn the_banner_has_a_frame() {
    assert_eq!(banner_edge("╭", "╮").chars().count(), 74);
    let row = banner_row(74, "ALPHA Download Launcher");
    assert_eq!(row.chars().count(), 72);
    assert!(row.starts_with("  ALPHA Download Launcher "));
    assert_eq!(banner_row(2, "x"), "  x");
}

#[test]
fn the_recap_has_bars() {
    let row = breakdown_row("Maps", 705 << 20, 705 << 20);
    assert_eq!(row.name, "Maps       ");
    assert_eq!(row.bar, "━".repeat(24));
    assert_eq!(row.percent, "100%");
    assert_eq!(row.sizes, "  705.0 MB /   705.0 MB");
    let row = breakdown_row("Maps", 1, 3);
    assert_eq!(row.percent, " 33%");
    assert_eq!(row.bar, format!("{}{}", "━".repeat(7), "─".repeat(17)));
    assert_eq!(breakdown_row("Maps", 0, 0).percent, "100%");
}

fn course(flags: Flags, outcomes: &[(Step, bool)], pending: bool) -> Vec<Step> {
    let mut step = first_step(flags);
    let mut seen = vec![step];
    for _ in 0..9 {
        let ok = !outcomes.contains(&(step, false));
        step = next_step(step, flags, Outcome { ok, pending });
        seen.push(step);
        if matches!(step, Step::Finished | Step::Cancelled | Step::Failed) {
            break;
        }
    }
    seen
}

const PLAIN: Flags = Flags { launch_only: false, dry_run: false, no_launch: false };

#[test]
fn runs_take_their_course() {
    assert_eq!(
        course(PLAIN, &[], true),
        vec![
            Step::FetchManifest,
            Step::Plan,
            Step::Confirm,
            Step::Download,
            Step::Prune,
            Step::Record,
            Step::RepairModes,
            Step::Launch,
            Step::Finished,
        ]
    );
    assert_eq!(
        course(Flags { no_launch: true, ..PLAIN }, &[(Step::Record, false), (Step::Prune, false)], false),
        vec![Step::FetchManifest, Step::Plan, Step::Prune, Step::Record, Step::RepairModes, Step::Finished]
    );
    assert_eq!(
        course(Flags { dry_run: true, ..PLAIN }, &[], true),
        vec![Step::FetchManifest, Step::Plan, Step::ShowPlan, Step::Finished]
    );
    assert_eq!(
        course(Flags { launch_only: true, ..PLAIN }, &[], true),
        vec![Step::LaunchDefault, Step::Finished]
    );
}

#[test]
fn runs_stop_where_they_must() {
    assert_eq!(course(PLAIN, &[(Step::FetchManifest, false)], true), vec![Step::FetchManifest, Step::Failed]);
    assert_eq!(
        course(PLAIN, &[(Step::Plan, false)], true),
        vec![Step::FetchManifest, Step::Plan, Step::Failed]
    );
    assert_eq!(
        course(PLAIN, &[(Step::Confirm, false)], true),
        vec![Step::FetchManifest, Step::Plan, Step::Confirm, Step::Cancelled]
    );
    assert_eq!(
        course(PLAIN, &[(Step::Download, false)], true),
        vec![Step::FetchManifest, Step::Plan, Step::Confirm, Step::Download, Step::Failed]
    );
    assert_eq!(
        course(PLAIN, &[(Step::Launch, false)], false).last(),
        Some(&Step::Failed)
    );
    assert_eq!(
        course(Flags { launch_only: true, ..PLAIN }, &[(Step::LaunchDefault, false)], false),
        vec![Step::LaunchDefault, Step::Failed]
    );
}
