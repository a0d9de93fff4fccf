//! Text operations on characters, each stated over the `Seq<char>` view of a string.

use vstd::prelude::*;
use vstd::string::*;
use vstd::utf8::*;

verus! {

/// Index of the first `c` in `s`, or `s.len()` when there is none.
pub open spec fn first_index(s: Seq<char>, c: char) -> nat
    decreases s.len(),
{
    if s.len() == 0 {
        0
    } else if s[0] == c {
        0
    } else {
        1 + first_index(s.drop_first(), c)
    }
}

/// Everything in front of the first `c`; all of `s` when there is none.
pub open spec fn before_first(s: Seq<char>, c: char) -> Seq<char> {
    s.take(first_index(s, c) as int)
}

/// Everything behind the first `c`.
pub open spec fn after_first(s: Seq<char>, c: char) -> Seq<char>
    recommends
        s.contains(c),
{
    s.skip(first_index(s, c) as int + 1)
}

/// Where the piece behind the last `c` starts; 0 when there is no `c`.
pub open spec fn tail_start(s: Seq<char>, c: char) -> nat
    decreases s.len(),
{
    if s.len() == 0 {
        0
    } else if s.last() == c {
        s.len()
    } else {
        tail_start(s.drop_last(), c)
    }
}

/// Everything behind the last `c`; all of `s` when there is none.
pub open spec fn after_last(s: Seq<char>, c: char) -> Seq<char> {
    s.skip(tail_start(s, c) as int)
}

/// The pieces of `s` between the separators `c`. There is always at least one.
pub open spec fn pieces(s: Seq<char>, c: char) -> Seq<Seq<char>>
    decreases s.len(),
{
    if first_index(s, c) < s.len() {
        seq![before_first(s, c)] + pieces(after_first(s, c), c)
    } else {
        seq![s]
    }
}

/// Whether `s` begins with `p`.
pub open spec fn starts_with(s: Seq<char>, p: Seq<char>) -> bool {
    p.len() <= s.len() && s.take(p.len() as int) == p
}

/// Index of the first occurrence of `p` in `s`.
pub open spec fn find(s: Seq<char>, p: Seq<char>) -> Option<nat>
    decreases s.len(),
{
    if starts_with(s, p) {
        Some(0)
    } else if s.len() == 0 {
        None
    } else {
        match find(s.drop_first(), p) {
            Some(i) => Some(i + 1),
            None => None,
        }
    }
}

/// An occurrence lies within the text.
pub proof fn lemma_find(s: Seq<char>, p: Seq<char>)
    ensures
        find(s, p) matches Some(i) ==> i + p.len() <= s.len() && starts_with(s.skip(i as int), p),
    decreases s.len(),
{
    if starts_with(s, p) {
        assert(s.skip(0) =~= s);
    } else if s.len() > 0 {
        lemma_find(s.drop_first(), p);
        if let Some(k) = find(s.drop_first(), p) {
            assert(s.drop_first().skip(k as int) =~= s.skip(k as int + 1));
        }
    }
}

/// The text between the first `mark` in `s` and the next one, or the end.
pub open spec fn between_marks(s: Seq<char>, mark: Seq<char>) -> Option<Seq<char>> {
    match find(s, mark) {
        Some(i) => {
            let rest = s.skip(i as int + mark.len());
            match find(rest, mark) {
                Some(k) => Some(rest.take(k as int)),
                None => Some(rest),
            }
        },
        None => None,
    }
}

/// `s` without the `c`s at its end.
pub open spec fn trim_end(s: Seq<char>, c: char) -> Seq<char>
    decreases s.len(),
{
    if s.len() > 0 && s.last() == c {
        trim_end(s.drop_last(), c)
    } else {
        s
    }
}

/// `s` without the `c`s at its start.
pub open spec fn trim_start(s: Seq<char>, c: char) -> Seq<char>
    decreases s.len(),
{
    if s.len() > 0 && s[0] == c {
        trim_start(s.drop_first(), c)
    } else {
        s
    }
}

/// `s` with each `a` turned into `b`.
pub open spec fn replaced(s: Seq<char>, a: char, b: char) -> Seq<char> {
    s.map_values(|x: char| if x == a { b } else { x })
}

/// `unit` written `n` times.
pub open spec fn repeated(unit: Seq<char>, n: nat) -> Seq<char>
    decreases n,
{
    if n == 0 {
        Seq::empty()
    } else {
        repeated(unit, (n - 1) as nat) + unit
    }
}

/// `s` filled up with spaces on the right to `width` characters.
pub open spec fn padded_right(s: Seq<char>, width: nat) -> Seq<char> {
    if s.len() >= width {
        s
    } else {
        s + repeated(" "@, (width - s.len()) as nat)
    }
}

/// `s` filled up with spaces on the left to `width` characters.
pub open spec fn padded_left(s: Seq<char>, width: nat) -> Seq<char> {
    if s.len() >= width {
        s
    } else {
        repeated(" "@, (width - s.len()) as nat) + s
    }
}

/// Padding fills up to the width, and a text that is too long stays as it is.
pub proof fn lemma_padded(s: Seq<char>, width: nat)
    ensures
        padded_left(s, width).len() == if s.len() >= width {
            s.len()
        } else {
            width
        },
        padded_right(s, width).len() == padded_left(s, width).len(),
{
    reveal_strlit(" ");
    if s.len() < width {
        lemma_repeated_len(" "@, (width - s.len()) as nat);
    }
}

proof fn lemma_repeated_len(unit: Seq<char>, n: nat)
    requires
        unit.len() == 1,
    ensures
        repeated(unit, n).len() == n,
    decreases n,
{
    if n > 0 {
        lemma_repeated_len(unit, (n - 1) as nat);
    }
}

/// Characters in front of position `first_index` differ from `c`, the one there is `c`.
pub proof fn lemma_first_index(s: Seq<char>, c: char)
    ensures
        first_index(s, c) <= s.len(),
        forall|j: int| 0 <= j < first_index(s, c) ==> s[j] != c,
        first_index(s, c) < s.len() ==> s[first_index(s, c) as int] == c,
        first_index(s, c) < s.len() <==> s.contains(c),
    decreases s.len(),
{
    if s.len() > 0 && s[0] != c {
        lemma_first_index(s.drop_first(), c);
        assert forall|j: int| 0 <= j < first_index(s, c) implies s[j] != c by {
            if j > 0 {
                assert(s.drop_first()[j - 1] == s[j]);
            }
        }
    }
    if s.contains(c) {
        let k = choose|k: int| 0 <= k < s.len() && s[k] == c;
        assert(!(k < first_index(s, c)));
    }
}

/// The position that `first_index` names is the only one with its two properties.
pub proof fn lemma_first_index_unique(s: Seq<char>, c: char, i: nat)
    requires
        i <= s.len(),
        forall|j: int| 0 <= j < i ==> s[j] != c,
        i < s.len() ==> s[i as int] == c,
    ensures
        first_index(s, c) == i,
{
    lemma_first_index(s, c);
    if first_index(s, c) < i {
        assert(s[first_index(s, c) as int] == c);
    }
    if i < first_index(s, c) {
        assert(s[i as int] == c);
    }
}

/// Behind `tail_start` there is no `c`, and the character in front of it is one.
pub proof fn lemma_tail_start(s: Seq<char>, c: char)
    ensures
        tail_start(s, c) <= s.len(),
        forall|j: int| tail_start(s, c) <= j < s.len() ==> s[j] != c,
        tail_start(s, c) > 0 ==> s[tail_start(s, c) - 1] == c,
    decreases s.len(),
{
    if s.len() > 0 && s.last() != c {
        lemma_tail_start(s.drop_last(), c);
        assert forall|j: int| tail_start(s, c) <= j < s.len() implies s[j] != c by {
            if j < s.len() - 1 {
                assert(s.drop_last()[j] == s[j]);
            }
        }
        if tail_start(s, c) > 0 {
            assert(s.drop_last()[tail_start(s, c) - 1] == s[tail_start(s, c) - 1]);
        }
    }
}

/// The characters of `s`.
pub fn chars_of(s: &str) -> (r: Vec<char>)
    ensures
        r@ == s@,
{
    let mut r: Vec<char> = Vec::new();
    for c in it: s.chars()
        invariant
            r@ == it.seq().take(it.index() as int),
            it.seq() == s@,
    {
        r.push(c);
    }
    r
}

/// Whether two texts hold the same characters.
pub fn same(a: &str, b: &str) -> (r: bool)
    ensures
        r == (a@ == b@),
{
    let x = a.as_bytes();
    let y = b.as_bytes();
    proof {
        vstd::utf8::encode_utf8_decode_utf8(a@);
        vstd::utf8::encode_utf8_decode_utf8(b@);
    }
    if x.len() != y.len() {
        return false;
    }
    let mut i: usize = 0;
    while i < x.len()
        invariant
            i <= x.len(),
            x.len() == y.len(),
            forall|j: int| 0 <= j < i ==> x@[j] == y@[j],
            x@ == a.spec_bytes(),
            y@ == b.spec_bytes(),
        decreases x.len() - i,
    {
        if x[i] != y[i] {
            assert(x@ != y@);
            return false;
        }
        i += 1;
    }
    assert(x@ =~= y@);
    true
}

/// The characters of each text of a list.
pub open spec fn views(list: Seq<String>) -> Seq<Seq<char>> {
    list.map_values(|x: String| x@)
}

/// Whether `a` stands in front of `b` in character order, or is equal to it. UTF-8 keeps this
/// order, so it is also the order of the encoded bytes.
pub open spec fn ordered(a: Seq<char>, b: Seq<char>) -> bool
    decreases a.len(),
{
    if a.len() == 0 {
        true
    } else if b.len() == 0 {
        false
    } else if a[0] == b[0] {
        ordered(a.drop_first(), b.drop_first())
    } else {
        (a[0] as int) < (b[0] as int)
    }
}

pub proof fn lemma_ordered_total(a: Seq<char>, b: Seq<char>)
    ensures
        ordered(a, b) || ordered(b, a),
    decreases a.len(),
{
    if a.len() > 0 && b.len() > 0 && a[0] == b[0] {
        lemma_ordered_total(a.drop_first(), b.drop_first());
    }
}

pub proof fn lemma_ordered_reflexive(a: Seq<char>)
    ensures
        ordered(a, a),
    decreases a.len(),
{
    if a.len() > 0 {
        lemma_ordered_reflexive(a.drop_first());
    }
}

pub proof fn lemma_ordered_antisymmetric(a: Seq<char>, b: Seq<char>)
    requires
        ordered(a, b),
        ordered(b, a),
    ensures
        a == b,
    decreases a.len(),
{
    if a.len() > 0 && b.len() > 0 {
        lemma_ordered_antisymmetric(a.drop_first(), b.drop_first());
        assert(a =~= seq![a[0]] + a.drop_first());
        assert(b =~= seq![b[0]] + b.drop_first());
    } else {
        assert(a =~= b);
    }
}

pub proof fn lemma_ordered_transitive(a: Seq<char>, b: Seq<char>, c: Seq<char>)
    requires
        ordered(a, b),
        ordered(b, c),
    ensures
        ordered(a, c),
    decreases a.len(),
{
    if a.len() > 0 && b.len() > 0 && c.len() > 0 && a[0] == b[0] && b[0] == c[0] {
        lemma_ordered_transitive(a.drop_first(), b.drop_first(), c.drop_first());
    }
}

/// Equal beginnings do not matter for the order.
proof fn lemma_ordered_skip(a: Seq<char>, b: Seq<char>, n: int)
    requires
        0 <= n <= a.len(),
        n <= b.len(),
        a.take(n) == b.take(n),
    ensures
        ordered(a, b) == ordered(a.skip(n), b.skip(n)),
    decreases n,
{
    if n == 0 {
        assert(a.skip(0) =~= a);
        assert(b.skip(0) =~= b);
    } else {
        assert(a[0] == a.take(n)[0]);
        assert(b[0] == b.take(n)[0]);
        assert(a.drop_first().take(n - 1) =~= a.take(n).drop_first());
        assert(b.drop_first().take(n - 1) =~= b.take(n).drop_first());
        lemma_ordered_skip(a.drop_first(), b.drop_first(), n - 1);
        assert(a.drop_first().skip(n - 1) =~= a.skip(n));
        assert(b.drop_first().skip(n - 1) =~= b.skip(n));
    }
}

/// Whether `a` stands in front of `b` or is equal to it.
pub fn is_ordered(a: &str, b: &str) -> (r: bool)
    ensures
        r == ordered(a@, b@),
{
    let x = chars_of(a);
    let y = chars_of(b);
    let mut i: usize = 0;
    while i < x.len() && i < y.len() && x[i] == y[i]
        invariant
            i <= x.len(),
            i <= y.len(),
            x@.take(i as int) == y@.take(i as int),
        decreases x.len() - i,
    {
        assert(x@.take(i + 1) =~= x@.take(i as int).push(x@[i as int]));
        assert(y@.take(i + 1) =~= y@.take(i as int).push(y@[i as int]));
        i += 1;
    }
    proof {
        lemma_ordered_skip(x@, y@, i as int);
    }
    if i == x.len() {
        true
    } else if i == y.len() {
        false
    } else {
        assert(x@.skip(i as int)[0] == x@[i as int]);
        assert(y@.skip(i as int)[0] == y@[i as int]);
        x[i] < y[i]
    }
}

/// Position of the first `c`, or the number of characters when there is none.
pub fn position(v: &Vec<char>, c: char) -> (r: usize)
    ensures
        r == first_index(v@, c),
{
    let mut i: usize = 0;
    while i < v.len() && v[i] != c
        invariant
            i <= v.len(),
            forall|j: int| 0 <= j < i ==> v@[j] != c,
        decreases v.len() - i,
    {
        i += 1;
    }
    proof {
        lemma_first_index_unique(v@, c, i as nat);
    }
    i
}

/// Whether `c` occurs in `s`.
pub fn has_char(s: &str, c: char) -> (r: bool)
    ensures
        r == s@.contains(c),
{
    let v = chars_of(s);
    proof {
        lemma_first_index(v@, c);
    }
    position(&v, c) < v.len()
}

/// Splits `s` at its first `c`.
pub fn split_once<'a>(s: &'a str, c: char) -> (r: Option<(&'a str, &'a str)>)
    ensures
        r is Some <==> s@.contains(c),
        r matches Some((head, tail)) ==> head@ == before_first(s@, c) && tail@ == after_first(s@, c),
{
    let v = chars_of(s);
    let i: usize = position(&v, c);
    proof {
        lemma_first_index(s@, c);
    }
    if i < v.len() {
        let head = s.substring_char(0, i);
        let tail = s.substring_char(i + 1, v.len());
        assert(head@ =~= before_first(s@, c));
        assert(tail@ =~= after_first(s@, c));
        Some((head, tail))
    } else {
        None
    }
}

/// The piece of `s` in front of the first `c`.
pub fn head_of<'a>(s: &'a str, c: char) -> (r: &'a str)
    ensures
        r@ == before_first(s@, c),
{
    let v = chars_of(s);
    let i: usize = position(&v, c);
    proof {
        lemma_first_index(s@, c);
    }
    let r = s.substring_char(0, i);
    assert(r@ =~= before_first(s@, c));
    r
}

/// The piece of `s` behind the last `c`.
pub fn tail_of<'a>(s: &'a str, c: char) -> (r: &'a str)
    ensures
        r@ == after_last(s@, c),
{
    let v = chars_of(s);
    let mut i: usize = v.len();
    assert(v@.take(i as int) =~= v@);
    while i > 0 && v[i - 1] != c
        invariant
            i <= v.len(),
            tail_start(v@, c) == tail_start(v@.take(i as int), c),
        decreases i,
    {
        assert(v@.take(i as int).drop_last() =~= v@.take(i - 1));
        assert(v@.take(i as int).last() == v@[i - 1]);
        i -= 1;
    }
    proof {
        if i > 0 {
            assert(v@.take(i as int).last() == v@[i - 1]);
        }
    }
    let r = s.substring_char(i, v.len());
    assert(r@ =~= after_last(s@, c));
    r
}

/// The pieces of `s` between the separators `c`.
pub fn split(s: &str, c: char) -> (r: Vec<String>)
    ensures
        views(r@) == pieces(s@, c),
{
    let mut r: Vec<String> = Vec::new();
    let mut rest: &str = s;
    assert(views(r@) + pieces(rest@, c) =~= pieces(s@, c));
    loop
        invariant
            views(r@) + pieces(rest@, c) == pieces(s@, c),
        decreases rest@.len(),
    {
        proof {
            lemma_first_index(rest@, c);
        }
        match split_once(rest, c) {
            Some((head, tail)) => {
                let ghost before = views(r@);
                r.push(head.to_owned());
                assert(views(r@) =~= before.push(head@));
                assert(views(r@) + pieces(tail@, c) =~= before + pieces(rest@, c));
                rest = tail;
            },
            None => {
                let ghost before = views(r@);
                r.push(rest.to_owned());
                assert(views(r@) =~= before.push(rest@));
                assert(views(r@) =~= before + pieces(rest@, c));
                return r;
            },
        }
    }
}

/// Whether `s` begins with `p`.
pub fn begins_with(s: &str, p: &str) -> (r: bool)
    ensures
        r == starts_with(s@, p@),
{
    let v = chars_of(s);
    let w = chars_of(p);
    assert(v@.skip(0) =~= v@);
    matches_at(&v, &w, 0)
}

/// Whether `w` stands in `v` at position `at`.
fn matches_at(v: &Vec<char>, w: &Vec<char>, at: usize) -> (r: bool)
    requires
        at <= v.len(),
    ensures
        r == starts_with(v@.skip(at as int), w@),
{
    if w.len() > v.len() - at {
        return false;
    }
    let mut i: usize = 0;
    while i < w.len()
        invariant
            i <= w.len(),
            at + w.len() <= v.len(),
            forall|j: int| 0 <= j < i ==> v@[at + j] == w@[j],
        decreases w.len() - i,
    {
        if v[at + i] != w[i] {
            assert(v@.skip(at as int).take(w@.len() as int)[i as int] == v@[at + i]);
            return false;
        }
        i += 1;
    }
    assert(v@.skip(at as int).take(w@.len() as int) =~= w@);
    true
}

/// Position of the first occurrence of `w` in `v`.
pub fn find_chars(v: &Vec<char>, w: &Vec<char>) -> (r: Option<usize>)
    ensures
        match r {
            Some(i) => find(v@, w@) == Some(i as nat),
            None => find(v@, w@) is None,
        },
{
    let mut i: usize = 0;
    assert(v@.skip(0) =~= v@);
    loop
        invariant
            i <= v.len(),
            match find(v@.skip(i as int), w@) {
                Some(k) => find(v@, w@) == Some((i + k) as nat),
                None => find(v@, w@) is None,
            },
        decreases v.len() - i,
    {
        if matches_at(v, w, i) {
            return Some(i);
        }
        if i == v.len() {
            return None;
        }
        assert(v@.skip(i as int).drop_first() =~= v@.skip(i + 1));
        i += 1;
    }
}

/// Position of the first occurrence of `p` in `s`.
pub fn find_text(s: &str, p: &str) -> (r: Option<usize>)
    ensures
        match r {
            Some(i) => find(s@, p@) == Some(i as nat),
            None => find(s@, p@) is None,
        },
{
    find_chars(&chars_of(s), &chars_of(p))
}

/// The text between the first `mark` in `s` and the next one, or the end.
pub fn after_mark<'a>(s: &'a str, mark: &str) -> (r: Option<&'a str>)
    ensures
        match r {
            Some(t) => between_marks(s@, mark@) == Some(t@),
            None => between_marks(s@, mark@) is None,
        },
{
    match find_text(s, mark) {
        Some(i) => {
            proof {
                lemma_find(s@, mark@);
            }
            let n: usize = s.unicode_len();
            let start: usize = i + mark.unicode_len();
            let rest = s.substring_char(start, n);
            assert(rest@ =~= s@.skip(i as int + mark@.len()));
            match find_text(rest, mark) {
                Some(k) => {
                    proof {
                        lemma_find(rest@, mark@);
                    }
                    let r = rest.substring_char(0, k);
                    assert(r@ =~= rest@.take(k as int));
                    Some(r)
                },
                None => Some(rest),
            }
        },
        None => None,
    }
}

/// `s` without the `c`s at its end.
pub fn without_end<'a>(s: &'a str, c: char) -> (r: &'a str)
    ensures
        r@ == trim_end(s@, c),
{
    let v = chars_of(s);
    let mut i: usize = v.len();
    assert(v@.take(i as int) =~= v@);
    while i > 0 && v[i - 1] == c
        invariant
            i <= v.len(),
            trim_end(v@, c) == trim_end(v@.take(i as int), c),
        decreases i,
    {
        assert(v@.take(i as int).drop_last() =~= v@.take(i - 1));
        i -= 1;
    }
    let r = s.substring_char(0, i);
    assert(r@ =~= v@.take(i as int));
    r
}

/// `s` without the `c`s at its start.
pub fn without_start<'a>(s: &'a str, c: char) -> (r: &'a str)
    ensures
        r@ == trim_start(s@, c),
{
    let v = chars_of(s);
    let mut i: usize = 0;
    assert(v@.skip(i as int) =~= v@);
    while i < v.len() && v[i] == c
        invariant
            i <= v.len(),
            trim_start(v@, c) == trim_start(v@.skip(i as int), c),
        decreases v.len() - i,
    {
        assert(v@.skip(i as int).drop_first() =~= v@.skip(i + 1));
        i += 1;
    }
    let r = s.substring_char(i, v.len());
    assert(r@ =~= v@.skip(i as int));
    r
}

/// `s` with forward slashes in place of backslashes.
pub fn forward_slashes(s: &str) -> (r: String)
    ensures
        r@ == replaced(s@, '\\', '/'),
{
    let v = chars_of(s);
    let mut r = String::new();
    let mut i: usize = 0;
    while i < v.len()
        invariant
            i <= v.len(),
            v@ == s@,
            r@ == replaced(s@.take(i as int), '\\', '/'),
        decreases v.len() - i,
    {
        assert(s@.take(i + 1) =~= s@.take(i as int).push(s@[i as int]));
        if v[i] == '\\' {
            proof {
                reveal_strlit("/");
            }
            r.append("/");
        } else {
            r.append(s.substring_char(i, i + 1));
        }
        i += 1;
        assert(r@ =~= replaced(s@.take(i as int), '\\', '/'));
    }
    assert(s@.take(i as int) =~= s@);
    r
}

/// `unit` written `n` times.
pub fn repeat(unit: &str, n: usize) -> (r: String)
    ensures
        r@ == repeated(unit@, n as nat),
{
    let mut r = String::new();
    let mut i: usize = 0;
    while i < n
        invariant
            i <= n,
            r@ == repeated(unit@, i as nat),
        decreases n - i,
    {
        r.append(unit);
        i += 1;
    }
    r
}

/// `s` with spaces behind it up to `width` characters.
pub fn pad_right(s: &str, width: usize) -> (r: String)
    ensures
        r@ == padded_right(s@, width as nat),
{
    let n: usize = s.unicode_len();
    let mut r = s.to_owned();
    if n < width {
        r.append(repeat(" ", width - n).as_str());
    }
    r
}

/// `s` with spaces in front of it up to `width` characters.
pub fn pad_left(s: &str, width: usize) -> (r: String)
    ensures
        r@ == padded_left(s@, width as nat),
{
    let n: usize = s.unicode_len();
    if n < width {
        repeat(" ", width - n).concat(s)
    } else {
        s.to_owned()
    }
}

/// The text that the first `n` bytes of `s` hold.
pub open spec fn byte_prefix(s: Seq<char>, n: int) -> Seq<char> {
    decode_utf8(encode_utf8(s).take(n))
}

/// Cutting ASCII text at a byte is cutting it at a character.
pub proof fn lemma_ascii_prefix(s: Seq<char>, n: int)
    requires
        is_ascii_chars(s),
        0 <= n <= s.len(),
    ensures
        encode_utf8(s).len() == s.len(),
        is_char_boundary(encode_utf8(s), n),
        byte_prefix(s, n) == s.take(n),
{
    vstd::utf8::is_ascii_chars_encode_utf8(s);
    vstd::utf8::is_ascii_chars_encode_utf8(s.take(n));
    assert(encode_utf8(s).take(n) =~= encode_utf8(s.take(n)));
    vstd::utf8::encode_utf8_decode_utf8(s.take(n));
    vstd::utf8::encode_utf8_valid_utf8(s);
    if n < s.len() {
        vstd::utf8::is_char_boundary_iff_not_is_continuation_byte(encode_utf8(s), n);
    } else {
        vstd::utf8::is_char_boundary_start_end_of_seq(encode_utf8(s));
    }
}

/// The first `n` bytes of `s`.
pub fn first_bytes<'a>(s: &'a str, n: usize) -> (r: &'a str)
    requires
        is_char_boundary(encode_utf8(s@), n as int),
    ensures
        r@ == byte_prefix(s@, n as int),
{
    let (head, _) = s.split_at(n);
    proof {
        vstd::utf8::encode_utf8_decode_utf8(head@);
        lemma_boundary_in_range(s@, n as int);
        assert(encode_utf8(s@).subrange(0, n as int) =~= encode_utf8(s@).take(n as int));
    }
    head
}

proof fn lemma_boundary_in_range(s: Seq<char>, n: int)
    requires
        is_char_boundary(encode_utf8(s), n),
    ensures
        0 <= n <= encode_utf8(s).len(),
{
    vstd::utf8::encode_utf8_valid_utf8(s);
}

/// A text is split at its first separator, whatever stands behind that; without a separator all of
/// it is in front.
pub proof fn law_split_at_the_first(head: Seq<char>, tail: Seq<char>, c: char)
    requires
        !head.contains(c),
    ensures
        (head.push(c) + tail).contains(c),
        before_first(head.push(c) + tail, c) == head,
        after_first(head.push(c) + tail, c) == tail,
        before_first(head, c) == head,
{
    let s = head.push(c) + tail;
    assert(s[head.len() as int] == c);
    assert forall|j: int| 0 <= j < head.len() implies s[j] != c by {
        assert(head[j] == s[j]);
        assert(head.contains(head[j]));
    }
    lemma_first_index_unique(s, c, head.len());
    assert forall|j: int| 0 <= j < head.len() implies head[j] != c by {
        assert(head.contains(head[j]));
    }
    lemma_first_index_unique(head, c, head.len());
    assert(s.take(head.len() as int) =~= head);
    assert(s.skip(head.len() as int + 1) =~= tail);
    assert(head.take(head.len() as int) =~= head);
}

/// The last piece of a text is what stands behind its last separator; without one it is the text.
pub proof fn law_tail_is_behind_the_last(head: Seq<char>, tail: Seq<char>, c: char)
    requires
        !tail.contains(c),
    ensures
        after_last(head.push(c) + tail, c) == tail,
        after_last(tail, c) == tail,
{
    let s = head.push(c) + tail;
    lemma_tail_start(s, c);
    let k = tail_start(s, c);
    assert(s[head.len() as int] == c);
    if k > head.len() + 1 {
        assert(s[k - 1] == tail[k - 2 - head.len()]);
        assert(tail.contains(s[k - 1]));
    }
    assert(k == head.len() + 1);
    assert(s.skip(k as int) =~= tail);
    lemma_tail_start(tail, c);
    if tail_start(tail, c) > 0 {
        assert(tail.contains(tail[tail_start(tail, c) - 1]));
    }
    assert(tail.skip(0) =~= tail);
}

/// Two texts with a separator between them have the pieces of the one and then those of the
/// other; a text without a separator is its only piece.
pub proof fn law_pieces_of_joined_texts(a: Seq<char>, b: Seq<char>, c: char)
    ensures
        pieces(a.push(c) + b, c) == pieces(a, c) + pieces(b, c),
        !a.contains(c) ==> pieces(a, c) == seq![a],
    decreases a.len(),
{
    let s = a.push(c) + b;
    lemma_first_index(a, c);
    assert(s[a.len() as int] == c);
    if !a.contains(c) {
        law_split_at_the_first(a, b, c);
        lemma_first_index(s, c);
        assert(pieces(s, c) =~= seq![a] + pieces(b, c));
    } else {
        let k = first_index(a, c);
        let head = a.take(k as int);
        let rest = a.skip(k as int + 1);
        assert(!head.contains(c)) by {
            if head.contains(c) {
                let j = choose|j: int| 0 <= j < head.len() && head[j] == c;
                assert(a[j] == c);
            }
        }
        assert(a =~= head.push(c) + rest);
        assert(s =~= head.push(c) + (rest.push(c) + b));
        law_split_at_the_first(head, rest, c);
        law_split_at_the_first(head, rest.push(c) + b, c);
        lemma_first_index(s, c);
        law_pieces_of_joined_texts(rest, b, c);
        assert(pieces(s, c) =~= pieces(a, c) + pieces(b, c));
    }
}

/// A text begins with another exactly if it is that one and something behind it.
pub proof fn law_beginning(s: Seq<char>, p: Seq<char>, rest: Seq<char>)
    ensures
        starts_with(p + rest, p),
        starts_with(s, p) ==> s == p + s.skip(p.len() as int),
{
    assert((p + rest).take(p.len() as int) =~= p);
    if starts_with(s, p) {
        assert(s =~= s.take(p.len() as int) + s.skip(p.len() as int));
    }
}

/// A search finds the first occurrence, and finds none only where there is none.
pub proof fn law_search_finds_the_first(a: Seq<char>, p: Seq<char>, b: Seq<char>)
    ensures
        find(a + p + b, p) matches Some(k) && k <= a.len() && (a + p + b).skip(k as int).take(p.len() as int) == p,
    decreases a.len(),
{
    let s = a + p + b;
    lemma_find(s, p);
    if a.len() == 0 {
        assert(s =~= p + b);
        law_beginning(s, p, b);
    } else if !starts_with(s, p) {
        assert(s.drop_first() =~= a.drop_first() + p + b);
        law_search_finds_the_first(a.drop_first(), p, b);
    }
    assert(s.skip(0) =~= s);
}

/// What is cut off the end is the given character alone, and all of it.
pub proof fn law_trimmed_end(s: Seq<char>, c: char)
    ensures
        trim_end(s, c).is_prefix_of(s),
        trim_end(s, c).len() > 0 ==> trim_end(s, c).last() != c,
        forall|i: int| trim_end(s, c).len() <= i < s.len() ==> s[i] == c,
        trim_end(s.push(c), c) == trim_end(s, c),
    decreases s.len(),
{
    assert(s.push(c).drop_last() =~= s);
    if s.len() > 0 && s.last() == c {
        law_trimmed_end(s.drop_last(), c);
        let t = trim_end(s, c);
        assert(t =~= s.subrange(0, t.len() as int)) by {
            assert(t == s.drop_last().subrange(0, t.len() as int));
        }
        assert forall|i: int| t.len() <= i < s.len() implies s[i] == c by {
            if i < s.len() - 1 {
                assert(s.drop_last()[i] == s[i]);
            }
        }
    } else {
        assert(s =~= s.subrange(0, s.len() as int));
    }
}

/// What is cut off the start is the given character alone, and all of it.
pub proof fn law_trimmed_start(s: Seq<char>, c: char)
    ensures
        trim_start(s, c).len() <= s.len(),
        trim_start(s, c) == s.skip(s.len() - trim_start(s, c).len()),
        trim_start(s, c).len() > 0 ==> trim_start(s, c)[0] != c,
        forall|i: int| 0 <= i < s.len() - trim_start(s, c).len() ==> s[i] == c,
    decreases s.len(),
{
    if s.len() > 0 && s[0] == c {
        law_trimmed_start(s.drop_first(), c);
        let t = trim_start(s, c);
        let k = s.len() - t.len();
        assert(t =~= s.skip(k)) by {
            assert(t == s.drop_first().skip(k - 1));
        }
        assert forall|i: int| 0 <= i < k implies s[i] == c by {
            if i > 0 {
                assert(s.drop_first()[i - 1] == s[i]);
            }
        }
    } else {
        assert(s =~= s.skip(0));
    }
}

/// Texts are in order by the first character in which they differ, and a beginning stands in front
/// of what continues it.
pub proof fn law_order_goes_by_the_first_difference(p: Seq<char>, x: char, s: Seq<char>, y: char, t: Seq<char>)
    ensures
        x != y ==> (ordered(p.push(x) + s, p.push(y) + t) <==> (x as int) < (y as int)),
        ordered(p, p + s),
        s.len() > 0 ==> !ordered(p + s, p),
    decreases p.len(),
{
    let a = p.push(x) + s;
    let b = p.push(y) + t;
    if p.len() > 0 {
        let q = p.drop_first();
        law_order_goes_by_the_first_difference(q, x, s, y, t);
        assert(a.drop_first() =~= q.push(x) + s);
        assert(b.drop_first() =~= q.push(y) + t);
        assert((p + s).drop_first() =~= q + s);
    }
}

/// Padding puts spaces in front of the text or behind it, up to the width, and changes nothing else.
pub proof fn law_padding_is_spaces(s: Seq<char>, width: nat)
    ensures
        ({
            let n = if s.len() >= width {
                0
            } else {
                width - s.len()
            };
            let spaces = Seq::new(n as nat, |i: int| ' ');
            &&& padded_left(s, width) == spaces + s
            &&& padded_right(s, width) == s + spaces
        }),
{
    reveal_strlit(" ");
    let n: nat = if s.len() >= width {
        0
    } else {
        (width - s.len()) as nat
    };
    law_repetition(' ', n);
    assert(" "@ =~= seq![' ']);
    let spaces = Seq::new(n, |i: int| ' ');
    if n == 0 {
        assert(spaces + s =~= s);
        assert(s + spaces =~= s);
    }
}

/// A character written a number of times is that many of it.
pub proof fn law_repetition(c: char, n: nat)
    ensures
        repeated(seq![c], n) == Seq::new(n, |i: int| c),
    decreases n,
{
    if n > 0 {
        law_repetition(c, (n - 1) as nat);
    }
    assert(repeated(seq![c], n) =~= Seq::new(n, |i: int| c));
}

/// Texts are the same exactly if they have the same characters, and a character is in a text exactly if it stands
/// somewhere in it.
pub proof fn law_texts_are_compared_by_character(a: &str, b: &str, c: char, equal: bool, ordered_so: bool, found: bool)
    requires
        call_ensures(same, (a, b), equal),
        call_ensures(is_ordered, (a, b), ordered_so),
        call_ensures(has_char, (a, c), found),
    ensures
        equal <==> a@ == b@,
        ordered_so <==> ordered(a@, b@),
        found <==> exists|i: int| 0 <= i < a@.len() && #[trigger] a@[i] == c,
{
    if found {
        let i = choose|i: int| 0 <= i < a@.len() && a@[i] == c;
        assert(a@[i] == c);
    }
}

/// A text is taken apart at its first separator as it is carried out: in front of it and behind it, or not at all where
/// there is none.
pub proof fn law_splitting_as_it_is_carried_out(
    s: &str,
    head: Seq<char>,
    tail: Seq<char>,
    c: char,
    halves: Option<(&str, &str)>,
    front: &str,
    last: &str,
)
    requires
        call_ensures(split_once, (s, c), halves),
        call_ensures(head_of, (s, c), front),
        call_ensures(tail_of, (s, c), last),
        !head.contains(c),
        s@ == head.push(c) + tail || s@ == head,
    ensures
        s@ == head.push(c) + tail ==> (halves matches Some((a, b)) && a@ == head && b@ == tail),
        s@ == head.push(c) + tail && !tail.contains(c) ==> last@ == tail,
        s@ == head ==> halves is None && last@ == head,
        front@ == head,
{
    law_split_at_the_first(head, tail, c);
    if s@ == head {
        law_tail_is_behind_the_last(tail, head, c);
    }
    if !tail.contains(c) {
        law_tail_is_behind_the_last(head, tail, c);
    }
}

/// A list of pieces joined by a separator is split into them again: a text is its pieces, in their order.
pub proof fn law_pieces_as_they_are_carried_out(s: &str, a: Seq<char>, b: Seq<char>, c: char, list: Vec<String>)
    requires
        call_ensures(split, (s, c), list),
        s@ == a.push(c) + b,
    ensures
        views(list@) == pieces(a, c) + pieces(b, c),
        !a.contains(c) ==> list@.len() >= 2 && list@[0]@ == a,
        !a.contains(c) && !b.contains(c) ==> list@.len() == 2 && list@[1]@ == b,
{
    law_pieces_of_joined_texts(a, b, c);
    law_pieces_of_joined_texts(b, Seq::empty(), c);
    let v = views(list@);
    assert(v.len() == list@.len());
    if !a.contains(c) {
        lemma_has_a_piece(b, c);
        assert(v[0] == list@[0]@);
        assert(v[1] == list@[1]@);
    }
}

proof fn lemma_has_a_piece(s: Seq<char>, c: char)
    ensures
        pieces(s, c).len() > 0,
{
}

/// Beginnings, occurrences and ends, as they are carried out.
pub proof fn law_searching_as_it_is_carried_out(
    s: &str,
    p: &str,
    c: char,
    begins: bool,
    at: Option<usize>,
    ends: (&str, &str),
)
    requires
        call_ensures(begins_with, (s, p), begins),
        call_ensures(find_text, (s, p), at),
        call_ensures(without_end, (s, c), ends.0),
        call_ensures(without_start, (s, c), ends.1),
    ensures
        begins <==> p@.len() <= s@.len() && s@.take(p@.len() as int) == p@,
        at matches Some(i) ==> i + p@.len() <= s@.len() && s@.skip(i as int).take(p@.len() as int) == p@,
        at is None ==> forall|i: int|
            0 <= i && i + p@.len() <= s@.len() ==> (#[trigger] s@.skip(i)).take(p@.len() as int) != p@,
        ends.0@ == trim_end(s@, c),
        ends.1@ == trim_start(s@, c),
{
    lemma_find(s@, p@);
    if at is None {
        assert forall|i: int| 0 <= i && i + p@.len() <= s@.len() implies (#[trigger] s@.skip(i)).take(p@.len() as int)
            != p@ by {
            if s@.skip(i).take(p@.len() as int) == p@ {
                let a = s@.take(i);
                let b = s@.skip(i + p@.len());
                assert(s@ =~= a + p@ + b);
                law_search_finds_the_first(a, p@, b);
            }
        }
    }
}

/// Slashes are turned forward one for one, texts are repeated as often as asked, and padding is spaces.
pub proof fn law_writing_as_it_is_carried_out(
    s: &str,
    n: usize,
    written: (String, String, String, String),
)
    requires
        call_ensures(forward_slashes, (s,), written.0),
        call_ensures(repeat, (s, n), written.1),
        call_ensures(pad_left, (s, n), written.2),
        call_ensures(pad_right, (s, n), written.3),
    ensures
        written.0@.len() == s@.len(),
        forall|i: int|
            0 <= i < s@.len() ==> #[trigger] written.0@[i] == if s@[i] == '\\' {
                '/'
            } else {
                s@[i]
            },
        s@.len() == 1 ==> written.1@ == Seq::new(n as nat, |i: int| s@[0]),
        written.2@ == padded_left(s@, n as nat),
        written.3@ == padded_right(s@, n as nat),
{
    if s@.len() == 1 {
        assert(s@ =~= seq![s@[0]]);
        law_repetition(s@[0], n as nat);
    }
}

} // verus!
