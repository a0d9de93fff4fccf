use quakers_launcher::manifest::Os;
use quakers_launcher::ui::{
    category_of, eta, percent_label, sizes, speed, system_description, trim, truncate, value_of_key, view_height,
    CategorySlot, Header, Progress, WorkerSlot, CATEGORY_ORDER,
};

#[test]
fn buckets_real_manifest_shapes() {
    // engine files sit at the install root, with no gamedir prefix
    assert_eq!(category_of("fteqw64.exe"), "Engine");
    assert_eq!(category_of("fteqw-gl64"), "Engine");
    assert_eq!(category_of("default.fmf"), "Engine");
    // the big packs live at the gamedir root and dominate the payload
    assert_eq!(category_of("quakers/polyhaven_props.pk3"), "Packs");
    assert_eq!(category_of("quakers/pizzadoggy.pk3"), "Packs");
    // ordinary content dirs
    assert_eq!(category_of("quakers/models/props/misc/outrun/car_0.skin"), "Models");
    assert_eq!(category_of("quakers/maps/e1m1.bsp"), "Maps");
    assert_eq!(category_of("quakers/sounds/weapons/rocket.ogg"), "Sounds");
    assert_eq!(category_of("quakers/textures/wall.dds"), "Textures");
    assert_eq!(category_of("quakers/gfx/conback.lmp"), "Interface");
    assert_eq!(category_of("quakers/sprites/flame.spr"), "Interface");
    // decals and skyboxes are world textures, not HUD art
    assert_eq!(category_of("quakers/gfx/decals/impacts/hole1.png"), "Textures");
    assert_eq!(category_of("quakers/gfx/env/sky_01_up.png"), "Textures");
    assert_eq!(category_of("quakers/gfx/rain/streak2.png"), "Interface");
    assert_eq!(category_of("quakers/glsl/water.glsl"), "Game data");
    assert_eq!(category_of("quakers/default.cfg"), "Game data");
}

#[test]
fn odd_paths_have_buckets_too() {
    assert_eq!(category_of(""), "Engine");
    assert_eq!(category_of("quakers/"), "Game data");
    assert_eq!(category_of("quakers/pk3"), "Packs");
    assert_eq!(category_of("quakers/models"), "Game data");
    assert_eq!(category_of("quakers/gfx/env"), "Textures");
    assert_eq!(category_of("quakers//x.pk3"), "Game data");
}

#[test]
fn every_bucket_is_displayable() {
    // anything category_of can return must have a slot in the display order,
    // or its bytes would be silently dropped from the breakdown.
    for p in [
        "fteqw64.exe",
        "quakers/polyhaven.pk3",
        "quakers/models/x.md3",
        "quakers/maps/x.bsp",
        "quakers/sounds/x.ogg",
        "quakers/textures/x.dds",
        "quakers/gfx/x.lmp",
        "quakers/anythingelse/x.dat",
        "quakers/x.cfg",
    ] {
        assert!(
            CATEGORY_ORDER.contains(&category_of(p)),
            "{p} -> {} missing from CATEGORY_ORDER",
            category_of(p)
        );
    }
}

#[test]
fn category_totals_conserve_bytes() {
    // the breakdown must account for every byte of the download set exactly once
    let files: Vec<(&str, u64)> = vec![
        ("fteqw-gl64", 100),
        ("quakers/polyhaven.pk3", 900),
        ("quakers/models/a.md3", 30),
        ("quakers/models/b.md3", 70),
        ("quakers/maps/m.bsp", 500),
        ("quakers/zz.cfg", 1),
    ];
    let total: u64 = files.iter().map(|f| f.1).sum();
    let summed: u64 = CATEGORY_ORDER
        .iter()
        .map(|name| files.iter().filter(|f| category_of(f.0) == *name).map(|f| f.1).sum::<u64>())
        .sum();
    assert_eq!(total, summed);
}

fn header() -> Header {
    Header {
        system: "Linux".to_string(),
        platform: "linux64".to_string(),
        release: "alpha · 1".to_string(),
        mirror: "dl.proto.bar".to_string(),
    }
}

#[test]
fn progress_counts() {
    let mut p = Progress::new(1000, 12, 2, vec![("Packs", 900), ("Maps", 100)], header());
    assert_eq!((p.total_bytes, p.done_bytes, p.files_total, p.files_done), (1000, 0, 12, 0));
    assert_eq!(p.workers.len(), 2);
    assert_eq!(p.workers[1].name, "idle");
    assert_eq!(p.category_index("quakers/a.pk3"), Some(0));
    assert_eq!(p.category_index("quakers/maps/a.bsp"), Some(1));
    assert_eq!(p.category_index("engine"), None);
    p.worker_start(1, "a.pk3", 50);
    assert!(p.workers[1].active && !p.workers[0].active);
    p.worker_set_cur(1, 7);
    p.worker_add(1, 3);
    assert_eq!((p.workers[1].cur, p.workers[1].total), (10, 50));
    assert_eq!(p.workers[1].name, "a.pk3");
    p.add_bytes(10);
    p.add_category_bytes(Some(0), 10);
    p.add_category_bytes(None, 99);
    assert_eq!((p.done_bytes, p.categories[0].done, p.categories[1].done), (10, 10, 0));
    p.file_done();
    assert_eq!(p.files_done, 1);
    p.worker_idle(1);
    assert_eq!(p.workers[1].name, "idle");
    assert!(!p.workers[1].active);
    assert_eq!(p.workers[1].cur, 10);
    // counters wrap around, as atomic counters do
    p.add_bytes(u64::MAX);
    assert_eq!(p.done_bytes, 9);
}

#[test]
fn rows_read_as_on_screen() {
    let mut p = Progress::new(6_800 << 20, 13786, 1, vec![("Maps", 705 << 20)], header());
    p.done_bytes = 1_292 << 20;
    p.files_done = 2603;
    let row = p.overall();
    assert_eq!(row.done, 1_292 << 20);
    assert_eq!(row.percent, " 19%");
    assert_eq!(row.files, "( 2603/13786)");
    p.categories[0].done = 800 << 20;
    let row = p.categories[0].row();
    assert_eq!(row.done, 705 << 20);
    assert!(row.complete);
    assert_eq!(row.percent, "100%");
    assert_eq!(row.sizes, " 705.0 MB / 705.0 MB");
    let empty = CategorySlot { name: "Maps", total: 0, done: 0 };
    assert_eq!(empty.row().percent, "  0%");
    let mut w = WorkerSlot::new();
    assert_eq!(w.row(1).sizes, "");
    w.active = true;
    w.cur = 512;
    w.total = 2048;
    w.name = "coast_rocks_01_nor_gl_8k.exr".to_string();
    let row = w.row(4);
    assert_eq!(row.label, "Worker 4: ");
    assert_eq!(row.name, "…st_rocks_01_nor_gl_8k.exr");
    assert_eq!(row.sizes, "    512 B /   2.0 KB");
    let rows = header().rows();
    assert_eq!(rows[0], (" System  ".to_string(), "Linux".to_string()));
    assert_eq!(rows[1], (" Release ".to_string(), "alpha · 1   (linux64 build)".to_string()));
    assert_eq!(rows[2], (" Mirror  ".to_string(), "dl.proto.bar".to_string()));
    assert!(header().is_shown());
    assert!(!Header::default().is_shown());
    assert_eq!(header().clone().mirror, "dl.proto.bar");
}

#[test]
fn columns_have_fixed_widths() {
    assert_eq!(sizes(0, 1023), "      0 B /   1023 B");
    assert_eq!(speed(4_089_446), " 3.9 MB/s");
    assert_eq!(percent_label(7), "  7%");
    assert_eq!(eta(None), "  --:--");
    assert_eq!(eta(Some(0)), "0:00:00");
    assert_eq!(eta(Some(3_725)), "1:02:05");
    assert_eq!(eta(Some(360_000)), "100:00:00");
}

#[test]
fn columns_do_not_move() {
    let mut size = 0u64;
    while size < 1 << 52 {
        assert_eq!(sizes(size, (1 << 52) - 1 - size).chars().count(), 20, "{size}");
        size = size * 3 + 1;
    }
    for pct in 0..=100 {
        assert_eq!(percent_label(pct).chars().count(), 4);
    }
    let mut p = Progress::new(0, 13786, 0, vec![], Header::default());
    for done in [0, 9, 10, 999, 13786] {
        p.files_done = done;
        assert_eq!(p.overall().files.len(), 13);
    }
}

#[test]
fn long_names_keep_their_end() {
    assert_eq!(truncate("abc", 3), "abc");
    assert_eq!(truncate("abcd", 3), "…cd");
    assert_eq!(truncate("äöüß", 1), "…");
    assert_eq!(truncate("", 0), "");
}

#[test]
fn view_height_adds_up() {
    assert_eq!(view_height(4, 8), 5 + 3 + 10 + 6);
    assert_eq!(view_height(1, 0), 3 + 3);
    assert_eq!(view_height(0x1_0004, 8), 24);
    let p = Progress::new(0, 0, 4, vec![("Packs", 1), ("Maps", 1)], header());
    assert_eq!(p.sections(), [5, 3, 4, 6]);
    assert_eq!(p.sections().iter().sum::<u16>(), view_height(4, 2));
    let p = Progress::new(0, 0, 1, vec![], Header::default());
    assert_eq!(p.sections(), [0, 3, 0, 3]);
}

#[test]
fn systems_are_described() {
    let release = "NAME=x\nPRETTY_NAME=\"Debian GNU/Linux 12 (bookworm)\"\nID=debian\n";
    assert_eq!(
        system_description(Os::Linux, Some(release), "linux", "x86_64"),
        "Debian GNU/Linux 12 (bookworm)  ·  x86_64"
    );
    assert_eq!(system_description(Os::Linux, Some("ID=x"), "linux", "x86_64"), "Linux  ·  x86_64");
    assert_eq!(system_description(Os::Linux, None, "linux", "x86_64"), "Linux  ·  x86_64");
    let ver = "\r\nMicrosoft Windows [Version 10.0.26100.1234]\r\n";
    assert_eq!(
        system_description(Os::Windows, Some(ver), "windows", "x86_64"),
        "Windows 10.0.26100.1234  ·  x86_64"
    );
    assert_eq!(system_description(Os::Windows, Some("?"), "windows", "x86_64"), "Windows  ·  x86_64");
    assert_eq!(system_description(Os::Windows, None, "windows", "x86_64"), "Windows  ·  x86_64");
    assert_eq!(system_description(Os::MacOs, None, "macos", "aarch64"), "macos  ·  aarch64");
}

#[test]
fn values_are_found_as_in_lines() {
    for content in ["", "K=v", "a\r\nK=v\r\n", "K=\r\n", "K=v\r", "x\nK=v\r", "\n\nK=1\nK=2", "aK=v\n"] {
        let expected = content.lines().find_map(|l| l.strip_prefix("K=")).map(|s| s.to_string());
        assert_eq!(value_of_key(content, "K="), expected, "{content:?}");
    }
}

#[test]
fn white_space_is_trimmed() {
    for code in 0..=0x10ffffu32 {
        if let Some(c) = char::from_u32(code) {
            let s = c.to_string();
            assert_eq!(trim(&s), s.trim(), "{c:?}");
        }
    }
    assert_eq!(trim("  a b \u{3000}"), "a b");
}
