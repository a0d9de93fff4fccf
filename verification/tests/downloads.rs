use quakers_launcher::download::{
    category_totals, count_chunk, first_place_step, first_step, job_categories, next_place_step, next_step, prepare,
    short_name, worker_count, DlOutcome, JobQueue, ObjectStep, PartFile, PlaceStep, Transfer,
};
use quakers_launcher::hashing::Hasher;
use quakers_launcher::manifest::FileEntry;
use quakers_launcher::ui::Header;

const BLAKE3_ABC: &str = "6437b3ac38465133ffb63b75273a8db548c558465d79db03fd359c6cd5bd9d85";
const BLAKE2B_ABC: &str = "bddd813c634239723171ef3fee98579b94964e3bb1cb3e427262c8c068d52319";

fn job(path: &str, size: u64) -> FileEntry {
    FileEntry {
        path: path.to_string(),
        size,
        hash: String::new(),
        component: "game".to_string(),
        platform: "all".to_string(),
        executable: false,
    }
}

fn hash(algo: &str, pieces: &[&[u8]]) -> String {
    match Hasher::new(algo) {
        Ok(mut h) => {
            for piece in pieces {
                h.update(piece);
            }
            h.hex()
        }
        Err(e) => panic!("{}", e.message()),
    }
}

#[test]
fn hashes_have_known_values() {
    assert_eq!(hash("blake3", &[]), "af1349b9f5f9a1a6a0404dea36dcc9499bcb25c9adc112b7cc9a93cae41f3262");
    assert_eq!(hash("blake2b-256", &[]), "0e5751c026e543b2e8ab2eb06099daa1d1e5df47778f7787faab45cdf12fe3a8");
    assert_eq!(hash("blake3", &[b"abc"]), BLAKE3_ABC);
    assert_eq!(hash("blake2b-256", &[b"abc"]), BLAKE2B_ABC);
}

#[test]
fn pieces_do_not_matter() {
    let data: Vec<u8> = (0..100_000u32).map(|i| (i * 7 + i / 251) as u8).collect();
    for algo in ["blake3", "blake2b-256"] {
        let whole = hash(algo, &[&data]);
        for cut in [0, 1, 64, 127, 128, 129, 1024, 5000, 99_999, 100_000] {
            assert_eq!(hash(algo, &[&data[..cut], &data[cut..]]), whole, "{algo} {cut}");
        }
    }
}

#[test]
fn unknown_algorithms_are_refused() {
    for algo in ["", "sha256", "BLAKE3", "blake2b"] {
        match Hasher::new(algo) {
            Ok(_) => panic!("{algo} was accepted"),
            Err(e) => assert_eq!(e.message(), format!("unsupported hash_algo: {algo}")),
        }
    }
    assert!(Transfer::start("md5", 1, None).is_err());
}

#[test]
fn workers_are_bounded_by_jobs() {
    assert_eq!(worker_count(8, 100), 8);
    assert_eq!(worker_count(8, 3), 3);
    assert_eq!(worker_count(0, 3), 1);
    assert_eq!(worker_count(8, 0), 1);
    for c in 0..6usize {
        for j in 0..6usize {
            assert_eq!(worker_count(c, j), c.max(1).min(j.max(1)));
        }
    }
}

#[test]
fn empty_buckets_are_dropped() {
    let jobs = vec![
        job("fteqw-gl64", 100),
        job("quakers/polyhaven.pk3", 900),
        job("quakers/models/a.md3", 30),
        job("quakers/models/b.md3", 70),
        job("quakers/maps/empty.bsp", 0),
        job("quakers/zz.cfg", 1),
    ];
    assert_eq!(category_totals(&jobs), vec![("Packs", 900), ("Models", 100), ("Game data", 1), ("Engine", 100)]);
    let p = prepare(&jobs, 1101, 4, Header::default());
    assert_eq!((p.total_bytes, p.files_total, p.workers.len()), (1101, 6, 4));
    assert_eq!(job_categories(&p, &jobs), vec![Some(3), Some(0), Some(1), Some(1), None, Some(2)]);
}

#[test]
fn chunks_are_counted_everywhere() {
    let jobs = vec![job("quakers/maps/a.bsp", 10)];
    let mut p = prepare(&jobs, 10, 1, Header::default());
    p.worker_start(0, "a.bsp", 10);
    count_chunk(&mut p, 0, Some(0), 4);
    count_chunk(&mut p, 0, Some(0), 6);
    assert_eq!((p.done_bytes, p.workers[0].cur, p.categories[0].done), (10, 10, 10));
    count_chunk(&mut p, 0, None, 1);
    assert_eq!((p.done_bytes, p.categories[0].done), (11, 10));
    count_chunk(&mut p, 0, Some(0), 5);
    let mut outcome = DlOutcome::new();
    outcome.record("quakers/maps/a.bsp", Ok(()));
    outcome.record("b", Err("mirror 1: HTTP 404 Not Found".to_string()));
    outcome.finish(&p);
    assert_eq!(outcome.ok, 1);
    assert_eq!(outcome.failed, vec![("b".to_string(), "mirror 1: HTTP 404 Not Found".to_string())]);
    assert_eq!(outcome.categories, vec![("Maps", 10, 10)]);
}

#[test]
fn the_summary_accounts_for_every_byte() {
    let jobs = vec![job("fteqw-gl64", 100), job("quakers/a.pk3", 900), job("quakers/maps/m.bsp", 500), job("quakers/zz.cfg", 0)];
    let mut p = prepare(&jobs, 1500, 2, Header::default());
    for (cat, n) in [(Some(0), 950), (Some(1), 20), (None, 7)] {
        count_chunk(&mut p, 0, cat, n);
    }
    let mut outcome = DlOutcome::new();
    outcome.finish(&p);
    assert_eq!(outcome.categories, vec![("Packs", 900, 900), ("Maps", 20, 500), ("Engine", 0, 100)]);
    assert_eq!(outcome.categories.iter().map(|c| c.2).sum::<u64>(), 1500);
}

#[test]
fn buckets_are_added_up_one_by_one() {
    let jobs = vec![job("fteqw-gl64", u64::MAX), job("quakers/a.pk3", u64::MAX)];
    assert_eq!(category_totals(&jobs), vec![("Packs", u64::MAX), ("Engine", u64::MAX)]);
}

fn placing(matched: bool, dest_exists: bool, moved: bool, executable: bool) -> Vec<PlaceStep> {
    let mut step = first_place_step(matched, dest_exists);
    let mut seen = vec![step];
    while !matches!(step, PlaceStep::Done | PlaceStep::Mismatched | PlaceStep::Failed) {
        step = next_place_step(step, step != PlaceStep::MoveIntoPlace || moved, executable);
        seen.push(step);
    }
    seen
}

#[test]
fn the_destination_is_touched_for_the_wanted_content_alone() {
    assert_eq!(placing(false, true, true, true), vec![PlaceStep::DeletePart, PlaceStep::Mismatched]);
    assert_eq!(
        placing(true, true, true, true),
        vec![PlaceStep::DeleteOld, PlaceStep::MoveIntoPlace, PlaceStep::MarkRunnable, PlaceStep::Done]
    );
    assert_eq!(placing(true, false, true, false), vec![PlaceStep::MoveIntoPlace, PlaceStep::Done]);
    assert_eq!(placing(true, false, false, true), vec![PlaceStep::MoveIntoPlace, PlaceStep::Failed]);
}

#[test]
fn jobs_are_handed_out_once() {
    let mut q = JobQueue::new(3);
    let taken: Vec<Option<usize>> = (0..5).map(|_| q.take()).collect();
    assert_eq!(taken, vec![Some(0), Some(1), Some(2), None, None]);
}

fn url(step: ObjectStep) -> String {
    match step {
        ObjectStep::Try { url } => url,
        other => panic!("{other:?}"),
    }
}

#[test]
fn mirrors_take_turns() {
    let mirrors = vec!["https://a/".to_string(), "https://b//".to_string()];
    let fail = |e: &str| Err(e.to_string());
    assert_eq!(url(first_step(&mirrors, "objects/aa/aa")), "https://a/objects/aa/aa");
    assert_eq!(url(next_step(&mirrors, "objects/aa/aa", 0, fail("x"))), "https://b/objects/aa/aa");
    assert_eq!(url(next_step(&mirrors, "objects/aa/aa", 1, fail("y"))), "https://a/objects/aa/aa");
    match next_step(&mirrors, "objects/aa/aa", 2, fail("HTTP 500")) {
        ObjectStep::Failed { error } => assert_eq!(error, "mirror 1: HTTP 500"),
        other => panic!("{other:?}"),
    }
    assert!(matches!(next_step(&mirrors, "o", 0, Ok(())), ObjectStep::Succeeded));
    match first_step(&vec![], "o") {
        ObjectStep::Failed { error } => assert_eq!(error, "no mirrors configured"),
        other => panic!("{other:?}"),
    }
}

#[test]
fn a_single_mirror_is_asked_twice() {
    let mirrors = vec!["m".to_string()];
    assert_eq!(url(next_step(&mirrors, "o", 0, Err("e".to_string()))), "m/o");
    assert!(matches!(next_step(&mirrors, "o", 1, Err("e".to_string())), ObjectStep::Failed { .. }));
}

fn start(algo: &str, size: u64, part_len: Option<u64>) -> Transfer {
    match Transfer::start(algo, size, part_len) {
        Ok(t) => t,
        Err(e) => panic!("{}", e.message()),
    }
}

#[test]
fn a_resumed_file_is_hashed_as_a_whole() {
    for (algo, want) in [("blake3", BLAKE3_ABC), ("blake2b-256", BLAKE2B_ABC)] {
        let mut t = start(algo, 3, Some(2));
        assert_eq!(t.missing(), 2);
        t.feed_prefix(b"a");
        t.feed_prefix(b"b-and-more");
        assert_eq!(t.missing(), 0);
        assert_eq!(t.range().as_deref(), Some("bytes=2-"));
        match t.respond(206, "206 Partial Content") {
            Ok((mut r, part)) => {
                assert_eq!(part, PartFile::Append);
                r.receive(b"c");
                assert_eq!(r.length, 3);
                assert_eq!(r.finish(want), Ok(()));
            }
            Err(e) => panic!("{e}"),
        }
    }
}

#[test]
fn a_server_without_ranges_starts_over() {
    let mut t = start("blake3", 3, Some(2));
    t.feed_prefix(b"ab");
    match t.respond(200, "200 OK") {
        Ok((mut r, part)) => {
            assert_eq!(part, PartFile::Truncate);
            assert_eq!(r.length, 0);
            r.receive(b"ab");
            r.receive(b"c");
            assert_eq!(r.finish(BLAKE3_ABC), Ok(()));
        }
        Err(e) => panic!("{e}"),
    }
}

#[test]
fn a_complete_part_file_is_accepted() {
    for (algo, want) in [("blake3", BLAKE3_ABC), ("blake2b-256", BLAKE2B_ABC)] {
        let mut t = start(algo, 3, Some(3));
        t.feed_prefix(b"abc");
        assert_eq!(t.range().as_deref(), Some("bytes=3-"));
        match t.respond(416, "416 Range Not Satisfiable") {
            Ok((r, part)) => {
                assert_eq!(part, PartFile::Append);
                assert!(r.complete);
                assert_eq!(r.length, 3);
                assert_eq!(r.finish(want), Ok(()));
            }
            Err(e) => panic!("{e}"),
        }
    }
}

#[test]
fn a_complete_part_file_with_a_wrong_hash_is_a_mismatch() {
    let mut t = start("blake3", 3, Some(3));
    t.feed_prefix(b"xyz");
    match t.respond(416, "416 Range Not Satisfiable") {
        Ok((r, _)) => match r.finish(BLAKE3_ABC) {
            Ok(()) => panic!("the wrong content was accepted"),
            Err(e) => assert!(e.starts_with("hash mismatch (got ") && e.ends_with(" want 6437b3ac…)"), "{e}"),
        },
        Err(e) => panic!("{e}"),
    }
    // the part file is deleted for that, and the extra attempt starts clean
    assert_eq!(start("blake3", 3, None).range(), None);
}

#[test]
fn an_unsatisfiable_range_is_an_error_while_bytes_are_missing() {
    let mut t = start("blake3", 4, Some(3));
    t.feed_prefix(b"abc");
    assert!(t.respond(416, "416 Range Not Satisfiable").is_err());
    assert!(start("blake3", 0, None).respond(416, "416 Range Not Satisfiable").is_err());
    let mut t = start("blake3", 3, Some(3));
    t.feed_prefix(b"abc");
    match t.respond(404, "404 Not Found") {
        Ok(_) => panic!("404 was accepted"),
        Err(e) => assert_eq!(e, "HTTP 404 Not Found"),
    }
}

#[test]
fn the_outcome_accounts_for_every_job() {
    let paths: Vec<String> = (0..10).map(|i| format!("f{i}")).collect();
    let mut queue = JobQueue::new(paths.len());
    let mut taken = Vec::new();
    while let Some(i) = queue.take() {
        taken.push(i);
    }
    assert_eq!(taken, (0..10).collect::<Vec<_>>());
    let mut outcome = DlOutcome::new();
    for i in taken.into_iter().rev() {
        let result = if i % 3 == 0 { Err(format!("e{i}")) } else { Ok(()) };
        outcome.record(&paths[i], result);
    }
    assert_eq!(outcome.ok + outcome.failed.len() as u64, 10);
    outcome.failed.sort();
    let expected: Vec<(String, String)> = [0, 3, 6, 9].iter().map(|i| (format!("f{i}"), format!("e{i}"))).collect();
    assert_eq!(outcome.failed, expected);
}

#[test]
fn a_part_file_that_is_too_long_is_dropped() {
    let t = start("blake3", 3, Some(4));
    assert_eq!(t.missing(), 0);
    assert_eq!(t.range(), None);
    match t.respond(206, "206 Partial Content") {
        Ok((_, part)) => assert_eq!(part, PartFile::Truncate),
        Err(e) => panic!("{e}"),
    }
    assert_eq!(start("blake3", 3, None).missing(), 0);
}

#[test]
fn a_shortened_part_file_is_resumed_from_its_end() {
    let mut t = start("blake3", 3, Some(2));
    t.feed_prefix(b"a");
    assert_eq!(t.range().as_deref(), Some("bytes=1-"));
}

#[test]
fn errors_of_the_server_are_reported() {
    for (status, text) in [(404u16, "404 Not Found"), (199, "199 ?"), (300, "300 Multiple Choices")] {
        match start("blake3", 3, None).respond(status, text) {
            Ok(_) => panic!("{status} was accepted"),
            Err(e) => assert_eq!(e, format!("HTTP {text}")),
        }
    }
}

#[test]
fn a_wrong_hash_is_reported() {
    let finish = |want: &str| match start("blake3", 3, None).respond(200, "200 OK") {
        Ok((mut r, _)) => {
            r.receive(b"abc");
            r.finish(want)
        }
        Err(e) => panic!("{e}"),
    };
    assert_eq!(
        finish("0123456789abcdef"),
        Err("hash mismatch (got 6437b3ac… want 01234567…)".to_string())
    );
    assert_eq!(finish("012"), Err("hash mismatch (got 6437b3ac… want 012…)".to_string()));
    assert_eq!(finish(""), Err("hash mismatch (got 6437b3ac… want …)".to_string()));
    assert_eq!(finish("äöüßx"), Err("hash mismatch (got 6437b3ac… want äöüß…)".to_string()));
}

#[test]
fn names_lose_their_directories() {
    assert_eq!(short_name("quakers/maps/a.bsp"), "a.bsp");
    assert_eq!(short_name("a.bsp"), "a.bsp");
    assert_eq!(short_name("a/"), "");
}
