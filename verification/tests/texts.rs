use quakers_launcher::text::{
    after_mark, begins_with, find_text, first_bytes, forward_slashes, has_char, head_of, is_ordered, pad_left,
    pad_right, repeat, same, split, split_once, tail_of, without_end, without_start,
};

fn texts() -> Vec<&'static str> {
    vec!["", "/", "a", "a/b", "a//b/", "//", "äö/ü", "/a", "b/a/c", "ab", "aab", "\u{7f}", "\u{80}", "𝄞/x", "x𝄞", "a\\b"]
}

#[test]
fn pieces_match_std() {
    for s in texts() {
        assert_eq!(split(s, '/'), s.split('/').map(|x| x.to_string()).collect::<Vec<_>>());
        assert_eq!(split_once(s, '/'), s.split_once('/'));
        assert_eq!(head_of(s, '/'), s.split('/').next().unwrap());
        assert_eq!(tail_of(s, '/'), s.rsplit('/').next().unwrap());
        assert_eq!(without_end(s, '/'), s.trim_end_matches('/'));
        assert_eq!(without_start(s, '/'), s.trim_start_matches('/'));
        assert_eq!(has_char(s, '/'), s.contains('/'));
        assert_eq!(forward_slashes(s), s.replace('\\', "/"));
        assert_eq!(pad_left(s, 4), format!("{:>4}", s));
        assert_eq!(pad_right(s, 4), format!("{:<4}", s));
        assert_eq!(repeat(s, 3), s.repeat(3));
    }
}

#[test]
fn comparisons_match_std() {
    for a in texts() {
        for b in texts() {
            assert_eq!(same(a, b), a == b);
            assert_eq!(is_ordered(a, b), a <= b, "{a:?} {b:?}");
            assert_eq!(begins_with(a, b), a.starts_with(b));
            assert_eq!(find_text(a, b), a.find(b).map(|i| a[..i].chars().count()));
            if !b.is_empty() {
                assert_eq!(after_mark(a, b), a.split(b).nth(1), "{a:?} {b:?}");
            }
        }
    }
}

#[test]
fn prefixes_are_cut_at_bytes() {
    assert_eq!(first_bytes("abcdef", 2), "ab");
    assert_eq!(first_bytes("äb", 2), "ä");
    assert_eq!(first_bytes("ab", 0), "");
}
