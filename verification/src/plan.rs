//! Diff the manifest against the local install to decide what to fetch.
//!
//! Fast mode (default): a file needs downloading if it's missing or the size differs, or if the
//! ledger records a different hash for it. Files whose size matches and that the ledger does not
//! know are trusted; a full verification hashes every file instead.

use crate::manifest::{self, FileEntry, Manifest, Os};
use crate::state::State;
use crate::text::{self, begins_with, has_char, is_ordered, same, split_once, tail_of};
use vstd::prelude::*;
use vstd::string::*;

verus! {

/// What to fetch.
pub struct Plan {
    pub to_download: Vec<FileEntry>,
    pub up_to_date: u64,
    pub bytes_to_download: u64,
}

/// Whether a gamedir-root file holds game data, by its extension.
pub open spec fn is_data_extension(ext: Seq<char>) -> bool {
    ext == "dat"@ || ext == "fgd"@ || ext == "cfg"@ || ext == "txt"@
}

/// Download-order tier of an entry: lower goes first. 0 the engine and other root-level files, 1
/// game data at the top of the gamedir, 2 the config directory, 3 everything else.
pub open spec fn tier(component: Seq<char>, path: Seq<char>) -> nat {
    if component == "engine"@ || !path.contains('/') {
        0
    } else {
        let rest = text::after_first(path, '/');
        if rest.contains('/') {
            if text::starts_with(rest, "cfg/"@) || text::starts_with(rest, "data/"@) {
                2
            } else {
                3
            }
        } else if is_data_extension(text::after_last(rest, '.')) {
            1
        } else {
            3
        }
    }
}

/// Download-order tier: lower goes first.
///
/// The top level of the gamedir is matched by extension, not by depth: it also holds the two
/// largest packs of a release, which a depth rule would drag to the very front.
pub fn priority(entry: &FileEntry) -> (r: u8)
    ensures
        r == tier(entry.component@, entry.path@),
{
    if same(entry.component.as_str(), "engine") {
        return 0;
    }
    match split_once(entry.path.as_str(), '/') {
        None => 0,
        Some((_, rest)) => {
            if has_char(rest, '/') {
                // `data/` is the historical name of the config directory, `cfg/` the current one.
                if begins_with(rest, "cfg/") || begins_with(rest, "data/") {
                    2
                } else {
                    3
                }
            } else {
                let ext = tail_of(rest, '.');
                if same(ext, "dat") || same(ext, "fgd") || same(ext, "cfg") || same(ext, "txt") {
                    1
                } else {
                    3
                }
            }
        },
    }
}

/// Whether `a` may be fetched in front of `b`: by tier, and within a tier by path.
pub open spec fn precedes(a: FileEntry, b: FileEntry) -> bool {
    let p = tier(a.component@, a.path@);
    let q = tier(b.component@, b.path@);
    p < q || (p == q && text::ordered(a.path@, b.path@))
}

/// Whether two entries have the same place in the order.
pub open spec fn same_rank(a: FileEntry, b: FileEntry) -> bool {
    tier(a.component@, a.path@) == tier(b.component@, b.path@) && a.path@ == b.path@
}

/// The entries of `s` with the place of `k`, in the order of `s`.
pub open spec fn rank_class(s: Seq<FileEntry>, k: FileEntry) -> Seq<FileEntry> {
    s.filter(|x: FileEntry| same_rank(x, k))
}

/// Whether every entry may stand in front of those behind it.
pub open spec fn in_order(s: Seq<FileEntry>) -> bool {
    forall|i: int, j: int| 0 <= i < j < s.len() ==> precedes(#[trigger] s[i], #[trigger] s[j])
}

/// Whether `out` is `input` in download order, entries of one place keeping their order.
pub open spec fn is_queue_of(out: Seq<FileEntry>, input: Seq<FileEntry>) -> bool {
    &&& in_order(out)
    &&& out.to_multiset() == input.to_multiset()
    &&& forall|k: FileEntry| #[trigger] rank_class(out, k) == rank_class(input, k)
}

proof fn lemma_precedes_total(a: FileEntry, b: FileEntry)
    ensures
        precedes(a, b) || precedes(b, a),
        precedes(a, b) && precedes(b, a) <==> same_rank(a, b),
{
    text::lemma_ordered_total(a.path@, b.path@);
    text::lemma_ordered_reflexive(a.path@);
    if text::ordered(a.path@, b.path@) && text::ordered(b.path@, a.path@) {
        text::lemma_ordered_antisymmetric(a.path@, b.path@);
    }
}

proof fn lemma_precedes_transitive(a: FileEntry, b: FileEntry, c: FileEntry)
    requires
        precedes(a, b),
        precedes(b, c),
    ensures
        precedes(a, c),
{
    if tier(a.component@, a.path@) == tier(b.component@, b.path@) && tier(b.component@, b.path@) == tier(
        c.component@,
        c.path@,
    ) {
        text::lemma_ordered_transitive(a.path@, b.path@, c.path@);
    }
}

proof fn lemma_filter_push(s: Seq<FileEntry>, x: FileEntry, p: spec_fn(FileEntry) -> bool)
    ensures
        s.push(x).filter(p) == if p(x) {
            s.filter(p).push(x)
        } else {
            s.filter(p)
        },
{
    reveal(Seq::filter);
    assert(s.push(x).drop_last() =~= s);
}

proof fn lemma_filter_none(s: Seq<FileEntry>, p: spec_fn(FileEntry) -> bool)
    requires
        forall|i: int| 0 <= i < s.len() ==> !p(#[trigger] s[i]),
    ensures
        s.filter(p) == Seq::<FileEntry>::empty(),
    decreases s.len(),
{
    reveal(Seq::filter);
    if s.len() > 0 {
        assert(!p(s[s.len() - 1]));
        assert forall|i: int| 0 <= i < s.drop_last().len() implies !p(#[trigger] s.drop_last()[i]) by {
            assert(s.drop_last()[i] == s[i]);
        }
        lemma_filter_none(s.drop_last(), p);
    }
}

fn may_precede(a: &FileEntry, b: &FileEntry) -> (r: bool)
    ensures
        r == precedes(*a, *b),
{
    let p: u8 = priority(a);
    let q: u8 = priority(b);
    p < q || (p == q && is_ordered(a.path.as_str(), b.path.as_str()))
}

/// What a merge has taken from `a` and `b` so far.
spec fn is_merged(out: Seq<FileEntry>, a: Seq<FileEntry>, i: int, b: Seq<FileEntry>, j: int) -> bool {
    &&& 0 <= i <= a.len()
    &&& 0 <= j <= b.len()
    &&& in_order(out)
    &&& out.to_multiset() == a.take(i).to_multiset().add(b.take(j).to_multiset())
    &&& manifest::total_size(out) == manifest::total_size(a.take(i)) + manifest::total_size(b.take(j))
    &&& forall|k: FileEntry| #[trigger]
        rank_class(out, k) == rank_class(a.take(i), k) + rank_class(b.take(j), k)
    &&& forall|n: int, m: int|
        0 <= n < out.len() && i <= m < a.len() ==> precedes(#[trigger] out[n], #[trigger] a[m])
    &&& forall|n: int, m: int|
        0 <= n < out.len() && j <= m < b.len() ==> precedes(#[trigger] out[n], #[trigger] b[m])
    &&& forall|n: int, m: int|
        0 <= n < j && i <= m < a.len() ==> !precedes(#[trigger] a[m], #[trigger] b[n])
}

proof fn lemma_push_size(s: Seq<FileEntry>, x: FileEntry)
    ensures
        manifest::total_size(s.push(x)) == manifest::total_size(s) + x.size,
{
    assert(s.push(x).drop_last() =~= s);
}

proof fn lemma_take_left(out: Seq<FileEntry>, a: Seq<FileEntry>, i: int, b: Seq<FileEntry>, j: int)
    requires
        is_merged(out, a, i, b, j),
        in_order(a),
        in_order(b),
        i < a.len(),
        j == b.len() || precedes(a[i], b[j]),
    ensures
        is_merged(out.push(a[i]), a, i + 1, b, j),
{
    let x = a[i];
    let grown = out.push(x);
    assert(a.take(i + 1) =~= a.take(i).push(x));
    lemma_push_size(out, x);
    lemma_push_size(a.take(i), x);
    vstd::seq_lib::to_multiset_build(out, x);
    vstd::seq_lib::to_multiset_build(a.take(i), x);
    assert(grown.to_multiset() =~= a.take(i + 1).to_multiset().add(b.take(j).to_multiset()));
    assert forall|k: FileEntry| #[trigger]
        rank_class(grown, k) == rank_class(a.take(i + 1), k) + rank_class(b.take(j), k) by {
        let p = |y: FileEntry| same_rank(y, k);
        lemma_filter_push(out, x, p);
        lemma_filter_push(a.take(i), x, p);
        assert(rank_class(out, k) == rank_class(a.take(i), k) + rank_class(b.take(j), k));
        if same_rank(x, k) {
            assert forall|n: int| 0 <= n < b.take(j).len() implies !p(#[trigger] b.take(j)[n]) by {
                assert(b.take(j)[n] == b[n]);
                assert(!precedes(a[i], b[n]));
                lemma_precedes_total(a[i], b[n]);
            }
            lemma_filter_none(b.take(j), p);
            assert(rank_class(b.take(j), k) =~= Seq::empty());
            assert(rank_class(grown, k) =~= rank_class(a.take(i + 1), k) + rank_class(b.take(j), k));
        }
    }
    assert forall|n: int, m: int| 0 <= n < grown.len() && j <= m < b.len() implies precedes(
        #[trigger] grown[n],
        #[trigger] b[m],
    ) by {
        if n == out.len() {
            if m > j {
                lemma_precedes_transitive(a[i], b[j], b[m]);
            }
        } else {
            assert(grown[n] == out[n]);
        }
    }
    assert forall|n: int, m: int| 0 <= n < grown.len() && i + 1 <= m < a.len() implies precedes(
        #[trigger] grown[n],
        #[trigger] a[m],
    ) by {
        if n < out.len() {
            assert(grown[n] == out[n]);
        }
    }
    assert forall|n: int, m: int| 0 <= n < m < grown.len() implies precedes(
        #[trigger] grown[n],
        #[trigger] grown[m],
    ) by {
        assert(grown[n] == out[n]);
        if m < out.len() {
            assert(grown[m] == out[m]);
        } else {
            assert(precedes(out[n], a[i]));
        }
    }
}

proof fn lemma_take_right(out: Seq<FileEntry>, a: Seq<FileEntry>, i: int, b: Seq<FileEntry>, j: int)
    requires
        is_merged(out, a, i, b, j),
        in_order(a),
        in_order(b),
        j < b.len(),
        i == a.len() || !precedes(a[i], b[j]),
    ensures
        is_merged(out.push(b[j]), a, i, b, j + 1),
{
    let x = b[j];
    let grown = out.push(x);
    assert(b.take(j + 1) =~= b.take(j).push(x));
    lemma_push_size(out, x);
    lemma_push_size(b.take(j), x);
    vstd::seq_lib::to_multiset_build(out, x);
    vstd::seq_lib::to_multiset_build(b.take(j), x);
    assert(grown.to_multiset() =~= a.take(i).to_multiset().add(b.take(j + 1).to_multiset()));
    assert forall|k: FileEntry| #[trigger]
        rank_class(grown, k) == rank_class(a.take(i), k) + rank_class(b.take(j + 1), k) by {
        let p = |y: FileEntry| same_rank(y, k);
        lemma_filter_push(out, x, p);
        lemma_filter_push(b.take(j), x, p);
        assert(rank_class(out, k) == rank_class(a.take(i), k) + rank_class(b.take(j), k));
        assert(rank_class(grown, k) =~= rank_class(a.take(i), k) + rank_class(b.take(j + 1), k));
    }
    assert forall|m: int| i <= m < a.len() implies precedes(x, #[trigger] a[m]) && !precedes(a[m], x) by {
        lemma_precedes_total(a[i], x);
        if m > i {
            lemma_precedes_transitive(x, a[i], a[m]);
            if precedes(a[m], x) {
                lemma_precedes_transitive(a[i], a[m], x);
            }
        }
    }
    assert forall|n: int, m: int| 0 <= n < grown.len() && i <= m < a.len() implies precedes(
        #[trigger] grown[n],
        #[trigger] a[m],
    ) by {
        if n < out.len() {
            assert(grown[n] == out[n]);
        }
    }
    assert forall|n: int, m: int| 0 <= n < grown.len() && j + 1 <= m < b.len() implies precedes(
        #[trigger] grown[n],
        #[trigger] b[m],
    ) by {
        if n < out.len() {
            assert(grown[n] == out[n]);
        }
    }
    assert forall|n: int, m: int| 0 <= n < m < grown.len() implies precedes(
        #[trigger] grown[n],
        #[trigger] grown[m],
    ) by {
        assert(grown[n] == out[n]);
        if m < out.len() {
            assert(grown[m] == out[m]);
        } else {
            assert(precedes(out[n], b[j]));
        }
    }
    assert forall|n: int, m: int| 0 <= n < j + 1 && i <= m < a.len() implies !precedes(
        #[trigger] a[m],
        #[trigger] b[n],
    ) by {
        if n == j {
            assert(!precedes(a[m], x));
        }
    }
}

/// Merges two lists that are in order, entries of `a` in front of equal ones of `b`.
fn merge(a: &Vec<FileEntry>, b: &Vec<FileEntry>) -> (r: Vec<FileEntry>)
    requires
        in_order(a@),
        in_order(b@),
    ensures
        is_merged(r@, a@, a@.len() as int, b@, b@.len() as int),
{
    let mut out: Vec<FileEntry> = Vec::new();
    let mut i: usize = 0;
    let mut j: usize = 0;
    proof {
        assert(a@.take(0) =~= Seq::empty());
        assert(b@.take(0) =~= Seq::empty());
        vstd::seq_lib::lemma_multiset_commutative(out@, out@);
        assert(out@ + out@ =~= out@);
        assert forall|k: FileEntry| #[trigger]
            rank_class(out@, k) == rank_class(a@.take(0), k) + rank_class(b@.take(0), k) by {
            let p = |y: FileEntry| same_rank(y, k);
            lemma_filter_none(out@, p);
            assert(rank_class(out@, k) =~= rank_class(a@.take(0), k) + rank_class(b@.take(0), k));
        }
    }
    while i < a.len() || j < b.len()
        invariant
            i <= a.len(),
            j <= b.len(),
            in_order(a@),
            in_order(b@),
            is_merged(out@, a@, i as int, b@, j as int),
        decreases a.len() - i + b.len() - j,
    {
        if j == b.len() || (i < a.len() && may_precede(&a[i], &b[j])) {
            proof {
                lemma_take_left(out@, a@, i as int, b@, j as int);
            }
            out.push(a[i].clone());
            i += 1;
        } else {
            proof {
                lemma_take_right(out@, a@, i as int, b@, j as int);
            }
            out.push(b[j].clone());
            j += 1;
        }
    }
    out
}

proof fn lemma_total_size_add(a: Seq<FileEntry>, b: Seq<FileEntry>)
    ensures
        manifest::total_size(a + b) == manifest::total_size(a) + manifest::total_size(b),
    decreases b.len(),
{
    if b.len() == 0 {
        assert(a + b =~= a);
    } else {
        lemma_total_size_add(a, b.drop_last());
        assert((a + b).drop_last() =~= a + b.drop_last());
    }
}

/// Puts entries into download order: by tier, then by path, equal ones as they came.
pub fn queue_order(entries: Vec<FileEntry>) -> (r: Vec<FileEntry>)
    ensures
        is_queue_of(r@, entries@),
        manifest::total_size(r@) == manifest::total_size(entries@),
    decreases entries.len(),
{
    if entries.len() <= 1 {
        return entries;
    }
    let mut left = entries;
    let half: usize = left.len() / 2;
    let right = left.split_off(half);
    let ghost whole = entries@;
    let ghost head = left@;
    let ghost tail = right@;
    assert(whole =~= head + tail);
    let a = queue_order(left);
    let b = queue_order(right);
    let r = merge(&a, &b);
    proof {
        assert(a@.take(a@.len() as int) =~= a@);
        assert(b@.take(b@.len() as int) =~= b@);
        lemma_total_size_add(head, tail);
        vstd::seq_lib::lemma_multiset_commutative(head, tail);
        assert forall|k: FileEntry| #[trigger] rank_class(r@, k) == rank_class(whole, k) by {
            let p = |y: FileEntry| same_rank(y, k);
            Seq::filter_distributes_over_add(head, tail, p);
            assert(rank_class(a@, k) == rank_class(head, k));
            assert(rank_class(b@, k) == rank_class(tail, k));
        }
    }
    r
}

/// The queue of a list is determined by the list: a re-run queues identically, so a resumed
/// install picks up where it left off rather than reshuffling.
pub proof fn law_queue_is_unique(a: Seq<FileEntry>, b: Seq<FileEntry>, input: Seq<FileEntry>)
    requires
        is_queue_of(a, input),
        is_queue_of(b, input),
    ensures
        a == b,
{
    assert forall|k: FileEntry| #[trigger] rank_class(a, k) == rank_class(b, k) by {
        assert(rank_class(a, k) == rank_class(input, k));
        assert(rank_class(b, k) == rank_class(input, k));
    }
    lemma_same_classes(a, b);
}

proof fn lemma_filter_first(s: Seq<FileEntry>, p: spec_fn(FileEntry) -> bool)
    requires
        s.len() > 0,
    ensures
        s.filter(p) == if p(s[0]) {
            seq![s[0]] + s.drop_first().filter(p)
        } else {
            s.drop_first().filter(p)
        },
{
    let one = seq![s[0]];
    assert(one + s.drop_first() =~= s);
    Seq::filter_distributes_over_add(one, s.drop_first(), p);
    assert(one =~= Seq::empty().push(s[0]));
    lemma_filter_none(Seq::empty(), p);
    lemma_filter_push(Seq::empty(), s[0], p);
    if p(s[0]) {
        assert(one.filter(p) =~= one);
    } else {
        assert(Seq::<FileEntry>::empty() + s.drop_first().filter(p) =~= s.drop_first().filter(p));
    }
}

/// An entry that leads a list in order stands in front of everything in a list with the same
/// entries at each place.
proof fn lemma_leader(a: Seq<FileEntry>, b: Seq<FileEntry>)
    requires
        in_order(a),
        b.len() > 0,
        forall|k: FileEntry| #[trigger] rank_class(a, k) == rank_class(b, k),
    ensures
        a.len() > 0,
        precedes(a[0], b[0]),
{
    let k = b[0];
    let p = |y: FileEntry| same_rank(y, k);
    lemma_filter_first(b, p);
    assert(rank_class(b, k).len() > 0);
    assert(rank_class(a, k) == rank_class(b, k));
    if forall|i: int| 0 <= i < a.len() ==> !p(#[trigger] a[i]) {
        lemma_filter_none(a, p);
        assert(false);
    }
    let i = choose|i: int| 0 <= i < a.len() && p(#[trigger] a[i]);
    lemma_precedes_total(a[i], k);
    if i > 0 {
        assert(precedes(a[0], a[i]));
        lemma_precedes_transitive(a[0], a[i], k);
    }
}

proof fn lemma_same_classes(a: Seq<FileEntry>, b: Seq<FileEntry>)
    requires
        in_order(a),
        in_order(b),
        forall|k: FileEntry| #[trigger] rank_class(a, k) == rank_class(b, k),
    ensures
        a == b,
    decreases a.len(),
{
    if b.len() > 0 {
        lemma_leader(a, b);
    }
    if a.len() > 0 {
        assert forall|k: FileEntry| #[trigger] rank_class(b, k) == rank_class(a, k) by {
            assert(rank_class(a, k) == rank_class(b, k));
        }
        lemma_leader(b, a);
        lemma_precedes_total(a[0], b[0]);
        let k0 = a[0];
        let p0 = |y: FileEntry| same_rank(y, k0);
        lemma_filter_first(a, p0);
        lemma_filter_first(b, p0);
        assert(rank_class(a, k0) == rank_class(b, k0));
        assert(rank_class(a, k0)[0] == a[0]);
        assert(rank_class(b, k0)[0] == b[0]);
        let x = a.drop_first();
        let y = b.drop_first();
        assert forall|k: FileEntry| #[trigger] rank_class(x, k) == rank_class(y, k) by {
            let p = |z: FileEntry| same_rank(z, k);
            lemma_filter_first(a, p);
            lemma_filter_first(b, p);
            assert(rank_class(a, k) == rank_class(b, k));
            if p(a[0]) {
                assert(rank_class(a, k).drop_first() =~= rank_class(x, k));
                assert(rank_class(b, k).drop_first() =~= rank_class(y, k));
            }
        }
        lemma_same_classes(x, y);
        assert(a =~= seq![a[0]] + x);
        assert(b =~= seq![b[0]] + y);
    } else {
        assert(a =~= b);
    }
}

/// What was found on disk where a file of the release belongs.
#[derive(Debug)]
pub enum LocalFile {
    Missing,
    Present {
        size: u64,
        /// The hash of its content, where it was taken.
        hash: Option<String>,
    },
}

/// Whether the content of a file has to be hashed before its fate is known.
pub open spec fn hash_decides(entry: FileEntry, local: LocalFile, verify: bool) -> bool {
    verify && (local matches LocalFile::Present { size, .. } && size == entry.size)
}

/// Whether a file must be downloaded.
pub open spec fn must_download(
    entry: FileEntry,
    local: LocalFile,
    ledger: Map<Seq<char>, String>,
    verify: bool,
) -> bool {
    match local {
        LocalFile::Missing => true,
        LocalFile::Present { size, hash } => if size != entry.size {
            true
        } else if verify {
            !(hash matches Some(h) && h@ == entry.hash@)
        } else {
            ledger.contains_key(entry.path@) && ledger[entry.path@]@ != entry.hash@
        },
    }
}

/// The files that must be downloaded, in manifest order.
pub open spec fn missing_files(
    files: Seq<FileEntry>,
    local: Seq<LocalFile>,
    ledger: Map<Seq<char>, String>,
    verify: bool,
) -> Seq<FileEntry>
    decreases files.len(),
{
    if files.len() == 0 {
        Seq::empty()
    } else {
        let front = missing_files(files.drop_last(), local, ledger, verify);
        if must_download(files.last(), local[files.len() - 1], ledger, verify) {
            front.push(files.last())
        } else {
            front
        }
    }
}

/// The beginning of a file list has no more to download than the list.
proof fn lemma_missing_grows(
    files: Seq<FileEntry>,
    n: int,
    local: Seq<LocalFile>,
    ledger: Map<Seq<char>, String>,
    verify: bool,
)
    requires
        0 <= n <= files.len(),
    ensures
        manifest::total_size(missing_files(files.take(n), local, ledger, verify)) <= manifest::total_size(
            missing_files(files, local, ledger, verify),
        ),
    decreases files.len(),
{
    if n < files.len() {
        let front = files.drop_last();
        lemma_missing_grows(front, n, local, ledger, verify);
        assert(front.take(n) =~= files.take(n));
        lemma_push_size(missing_files(front, local, ledger, verify), files.last());
    } else {
        assert(files.take(n) =~= files);
    }
}

/// What must be downloaded is at most what the release holds.
pub proof fn law_download_is_part_of_release(
    files: Seq<FileEntry>,
    local: Seq<LocalFile>,
    ledger: Map<Seq<char>, String>,
    verify: bool,
)
    ensures
        manifest::total_size(missing_files(files, local, ledger, verify)) <= manifest::total_size(files),
        missing_files(files, local, ledger, verify).len() <= files.len(),
    decreases files.len(),
{
    if files.len() > 0 {
        law_download_is_part_of_release(files.drop_last(), local, ledger, verify);
        lemma_push_size(missing_files(files.drop_last(), local, ledger, verify), files.last());
    }
}

/// The plan is exact: a file is on the list if and only if it must be downloaded.
pub proof fn law_plan_is_exact(
    files: Seq<FileEntry>,
    local: Seq<LocalFile>,
    ledger: Map<Seq<char>, String>,
    verify: bool,
    entry: FileEntry,
)
    ensures
        missing_files(files, local, ledger, verify).contains(entry) <==> exists|i: int|
            0 <= i < files.len() && #[trigger] files[i] == entry && must_download(files[i], local[i], ledger, verify),
    decreases files.len(),
{
    if files.len() > 0 {
        let front = files.drop_last();
        let last = files.len() - 1;
        law_plan_is_exact(front, local, ledger, verify, entry);
        let listed = missing_files(front, local, ledger, verify);
        let all = missing_files(files, local, ledger, verify);
        if all.contains(entry) {
            let k = choose|k: int| 0 <= k < all.len() && all[k] == entry;
            if k < listed.len() {
                assert(listed[k] == entry);
                let i = choose|i: int|
                    0 <= i < front.len() && #[trigger] front[i] == entry && must_download(front[i], local[i], ledger, verify);
                assert(files[i] == entry);
            } else {
                assert(files[last] == entry);
            }
        }
        if exists|i: int|
            0 <= i < files.len() && #[trigger] files[i] == entry && must_download(files[i], local[i], ledger, verify) {
            let i = choose|i: int|
                0 <= i < files.len() && #[trigger] files[i] == entry && must_download(files[i], local[i], ledger, verify);
            if i < last {
                assert(front[i] == entry);
                let k = choose|k: int| 0 <= k < listed.len() && listed[k] == entry;
                assert(all[k] == entry);
            } else {
                assert(all[all.len() - 1] == entry);
            }
        }
    }
}

/// A full verification trusts nothing but the content: a file is left alone if and only if its
/// size and the hash of its content are those of the manifest, whatever the ledger says.
pub proof fn law_verification_goes_by_content(
    entry: FileEntry,
    content: Seq<u8>,
    hash: String,
    algorithm: crate::hashing::Algorithm,
    ledger: Map<Seq<char>, String>,
)
    requires
        content.len() <= u64::MAX,
        hash@ == crate::hashing::hash_text(algorithm, content),
    ensures
        !must_download(
            entry,
            LocalFile::Present { size: content.len() as u64, hash: Some(hash) },
            ledger,
            true,
        ) <==> content.len() == entry.size && crate::hashing::hash_text(algorithm, content) == entry.hash@,
{
}

/// A full verification does not depend on the ledger: the whole plan is the same with any other.
pub proof fn law_verification_ignores_the_ledger(
    files: Seq<FileEntry>,
    local: Seq<LocalFile>,
    a: Map<Seq<char>, String>,
    b: Map<Seq<char>, String>,
)
    ensures
        missing_files(files, local, a, true) == missing_files(files, local, b, true),
    decreases files.len(),
{
    if files.len() > 0 {
        law_verification_ignores_the_ledger(files.drop_last(), local, a, b);
    }
}

/// Whether what was found for an entry is what is on disk: nothing, or a file with this content,
/// hashed where its size is the entry's.
pub open spec fn is_found(
    local: LocalFile,
    content: Option<Seq<u8>>,
    entry: FileEntry,
    algorithm: crate::hashing::Algorithm,
) -> bool {
    match (local, content) {
        (LocalFile::Missing, None) => true,
        (LocalFile::Present { size, hash }, Some(c)) => size == c.len() && (size == entry.size ==> (hash matches Some(h)
            && h@ == crate::hashing::hash_text(algorithm, c))),
        _ => false,
    }
}

/// Whether a file holds what the manifest says.
pub open spec fn is_intact(
    content: Option<Seq<u8>>,
    entry: FileEntry,
    algorithm: crate::hashing::Algorithm,
) -> bool {
    content matches Some(c) && c.len() == entry.size && crate::hashing::hash_text(algorithm, c) == entry.hash@
}

/// A full verification plans to fetch exactly the files that are missing, have another length or
/// hold something else than the manifest says, whatever the ledger says.
pub proof fn law_verified_plan_goes_by_content(
    files: Seq<FileEntry>,
    local: Seq<LocalFile>,
    contents: Seq<Option<Seq<u8>>>,
    algorithm: crate::hashing::Algorithm,
    ledger: Map<Seq<char>, String>,
    entry: FileEntry,
)
    requires
        local.len() == files.len(),
        contents.len() == files.len(),
        forall|i: int| 0 <= i < files.len() ==> is_found(local[i], contents[i], #[trigger] files[i], algorithm),
    ensures
        missing_files(files, local, ledger, true).contains(entry) <==> exists|i: int|
            0 <= i < files.len() && #[trigger] files[i] == entry && !is_intact(contents[i], entry, algorithm),
{
    law_plan_is_exact(files, local, ledger, true, entry);
    assert forall|i: int| 0 <= i < files.len() implies must_download(#[trigger] files[i], local[i], ledger, true)
        == !is_intact(contents[i], files[i], algorithm) by {
        assert(is_found(local[i], contents[i], files[i], algorithm));
    }
}

/// The last entry for a path.
proof fn lemma_last_entry(files: Seq<FileEntry>, i: int) -> (last: int)
    requires
        0 <= i < files.len(),
    ensures
        i <= last < files.len(),
        files[last].path@ == files[i].path@,
        forall|j: int| last < j < files.len() ==> #[trigger] files[j].path@ != files[i].path@,
    decreases files.len() - i,
{
    if exists|j: int| i < j < files.len() && #[trigger] files[j].path@ == files[i].path@ {
        let j = choose|j: int| i < j < files.len() && #[trigger] files[j].path@ == files[i].path@;
        lemma_last_entry(files, j)
    } else {
        i
    }
}

/// Once a release is on disk and recorded, there is nothing left to fetch, in fast mode as in a
/// full verification. A release that lists one path with two different hashes is never done.
pub proof fn law_synced_install_is_up_to_date(
    files: Seq<FileEntry>,
    local: Seq<LocalFile>,
    ledger: Map<Seq<char>, String>,
    removed: Seq<Seq<char>>,
    verify: bool,
)
    requires
        local.len() == files.len(),
        forall|i: int|
            0 <= i < files.len() ==> (#[trigger] local[i] matches LocalFile::Present { size, hash } && size
                == files[i].size && (verify ==> (hash matches Some(h) && h@ == files[i].hash@))),
        forall|i: int, j: int|
            0 <= i < files.len() && 0 <= j < files.len() && #[trigger] files[i].path@ == #[trigger] files[j].path@
                ==> files[i].hash@ == files[j].hash@,
    ensures
        missing_files(files, local, crate::state::synced_ledger(ledger, files, removed), verify) == Seq::<
            FileEntry,
        >::empty(),
{
    let after = crate::state::synced_ledger(ledger, files, removed);
    assert forall|i: int| 0 <= i < files.len() implies !must_download(files[i], #[trigger] local[i], after, verify) by {
        let path = files[i].path@;
        crate::state::law_synced_ledger(ledger, files, removed, path);
        if !removed.contains(path) {
            let last = lemma_last_entry(files, i);
            assert(after[path] == files[last].hash);
        }
    }
    lemma_nothing_missing(files, local, after, verify, files.len() as int);
    assert(files.take(files.len() as int) =~= files);
}

proof fn lemma_nothing_missing(
    files: Seq<FileEntry>,
    local: Seq<LocalFile>,
    ledger: Map<Seq<char>, String>,
    verify: bool,
    n: int,
)
    requires
        0 <= n <= files.len(),
        local.len() == files.len(),
        forall|i: int| 0 <= i < files.len() ==> !must_download(files[i], #[trigger] local[i], ledger, verify),
    ensures
        missing_files(files.take(n), local, ledger, verify) == Seq::<FileEntry>::empty(),
    decreases n,
{
    if n > 0 {
        lemma_nothing_missing(files, local, ledger, verify, n - 1);
        assert(files.take(n).drop_last() =~= files.take(n - 1));
        assert(!must_download(files[n - 1], local[n - 1], ledger, verify));
    }
}

/// Whether the content of a file of this size has to be hashed before its fate is known.
pub fn needs_hash(entry: &FileEntry, size: u64, verify: bool) -> (r: bool)
    ensures
        r == hash_decides(*entry, LocalFile::Present { size, hash: None }, verify),
{
    verify && size == entry.size
}

/// Whether `entry` must be downloaded, given what is on disk and in the ledger.
pub fn needs_download(entry: &FileEntry, local: &LocalFile, state: &State, verify: bool) -> (r: bool)
    requires
        hash_decides(*entry, *local, verify) ==> local->hash is Some,
    ensures
        r == must_download(*entry, *local, state.files@, verify),
{
    match local {
        LocalFile::Missing => true,
        LocalFile::Present { size, hash } => {
            if *size != entry.size {
                true
            } else if verify {
                match hash {
                    Some(h) => !same(h.as_str(), entry.hash.as_str()),
                    None => true,
                }
            } else {
                match state.files.get(entry.path.as_str()) {
                    // content changed since last install
                    Some(h) => !same(h.as_str(), entry.hash.as_str()),
                    // trust size in fast mode
                    None => false,
                }
            }
        },
    }
}

/// Decides what to fetch. `local` holds, for each file of the platform in manifest order, what
/// was found on disk, with a hash wherever one decides.
pub fn build(manifest: &Manifest, os: Os, local: &Vec<LocalFile>, state: &State, verify: bool) -> (r: Plan)
    requires
        local@.len() == manifest::wanted_files(manifest.files@, os).len(),
        forall|i: int|
            0 <= i < local@.len() && hash_decides(manifest::wanted_files(manifest.files@, os)[i], #[trigger] local@[i], verify)
                ==> local@[i]->hash is Some,
        manifest::total_size(missing_files(manifest::wanted_files(manifest.files@, os), local@, state.files@, verify)) <= u64::MAX,
    ensures
        is_queue_of(
            r.to_download@,
            missing_files(manifest::wanted_files(manifest.files@, os), local@, state.files@, verify),
        ),
        r.up_to_date == local@.len() - missing_files(
            manifest::wanted_files(manifest.files@, os),
            local@,
            state.files@,
            verify,
        ).len(),
        r.bytes_to_download == manifest::total_size(
            missing_files(manifest::wanted_files(manifest.files@, os), local@, state.files@, verify),
        ),
        r.bytes_to_download == manifest::total_size(r.to_download@),
        r.up_to_date + r.to_download@.len() == local@.len(),
{
    let wanted = manifest.files_for_platform(os);
    let ghost all = wanted@.unref();
    let mut to_download: Vec<FileEntry> = Vec::new();
    let mut up_to_date: u64 = 0;
    let mut bytes: u64 = 0;
    let mut i: usize = 0;
    while i < wanted.len()
        invariant
            i <= wanted.len(),
            all == wanted@.unref(),
            all == manifest::wanted_files(manifest.files@, os),
            local@.len() == all.len(),
            forall|k: int|
                0 <= k < local@.len() && hash_decides(all[k], #[trigger] local@[k], verify) ==> local@[k]->hash is Some,
            manifest::total_size(missing_files(all, local@, state.files@, verify)) <= u64::MAX,
            to_download@ == missing_files(all.take(i as int), local@, state.files@, verify),
            up_to_date + to_download@.len() == i,
            bytes == manifest::total_size(to_download@),
        decreases wanted.len() - i,
    {
        proof {
            assert(all.take(i + 1).drop_last() =~= all.take(i as int));
            assert(all.take(i + 1).last() == *wanted@[i as int]);
            lemma_missing_grows(all, i + 1, local@, state.files@, verify);
        }
        let entry = wanted[i];
        assert(*entry == all[i as int]);
        if needs_download(entry, &local[i], state, verify) {
            proof {
                lemma_push_size(to_download@, *entry);
            }
            bytes = bytes + entry.size;
            to_download.push(entry.clone());
        } else {
            up_to_date = up_to_date + 1;
        }
        i += 1;
    }
    assert(all.take(i as int) =~= all);
    let ghost found = to_download@;
    // Fetch the small, functionally important files before the multi-hundred-MB texture packs,
    // so a fresh install becomes runnable and inspectable early.
    let to_download = queue_order(to_download);
    proof {
        vstd::seq_lib::to_multiset_len(found);
        vstd::seq_lib::to_multiset_len(to_download@);
    }
    Plan { to_download, up_to_date, bytes_to_download: bytes }
}

/// The files of the platform that must be runnable.
pub open spec fn executable_files(files: Seq<FileEntry>, os: Os) -> Seq<FileEntry> {
    manifest::wanted_files(files, os).filter(|f: FileEntry| f.executable)
}

/// The permission bits of a file that must be runnable, if they have to change.
pub open spec fn mode_repair(mode: u32) -> Option<u32> {
    if mode & 0o111 == 0 {
        Some(mode | 0o755)
    } else {
        None
    }
}

/// The paths whose permission bits have to change, each with its new bits. `modes` holds the
/// present bits of each of `files`, None for a file that is not there.
pub open spec fn mode_repairs(files: Seq<FileEntry>, modes: Seq<Option<u32>>) -> Seq<(Seq<char>, u32)>
    decreases files.len(),
{
    if files.len() == 0 {
        Seq::empty()
    } else {
        let front = mode_repairs(files.drop_last(), modes);
        match modes[files.len() - 1] {
            Some(mode) => match mode_repair(mode) {
                Some(bits) => front.push((files.last().path@, bits)),
                None => front,
            },
            None => front,
        }
    }
}

/// The new permission bits for a file that must be runnable and has no execute bit at all.
pub fn repaired_mode(mode: u32) -> (r: Option<u32>)
    ensures
        r == mode_repair(mode),
{
    if mode & 0o111 == 0 {
        Some(mode | 0o755)
    } else {
        None
    }
}

/// The permission bits of a freshly downloaded file: it arrives without any execute bit, and an
/// engine binary would not run.
pub fn downloaded_mode(entry: &FileEntry, mode: u32) -> (r: u32)
    ensures
        r == if entry.executable {
            mode | 0o755
        } else {
            mode
        },
{
    if entry.executable {
        mode | 0o755
    } else {
        mode
    }
}

/// A repair makes the file runnable for everyone and takes no permission away.
pub proof fn law_repair_makes_runnable(mode: u32)
    ensures
        mode_repair(mode) matches Some(bits) ==> bits & 0o111 == 0o111 && bits & mode == mode && mode_repair(bits) is None,
{
    assert((mode | 0o755) & 0o111 == 0o111u32) by (bit_vector);
    assert((mode | 0o755) & mode == mode) by (bit_vector);
}

/// The files of the platform that must be runnable, in manifest order.
pub fn executables<'a>(manifest: &'a Manifest, os: Os) -> (r: Vec<&'a FileEntry>)
    ensures
        r@.unref() == executable_files(manifest.files@, os),
{
    let wanted = manifest.files_for_platform(os);
    let ghost all = wanted@.unref();
    let ghost keep = |f: FileEntry| f.executable;
    let mut r: Vec<&FileEntry> = Vec::new();
    let mut i: usize = 0;
    proof {
        lemma_filter_none(all.take(0), keep);
        assert(r@.unref() =~= Seq::empty());
    }
    while i < wanted.len()
        invariant
            i <= wanted.len(),
            all == wanted@.unref(),
            keep == (|f: FileEntry| f.executable),
            r@.unref() == all.take(i as int).filter(keep),
        decreases wanted.len() - i,
    {
        proof {
            manifest::lemma_filter_step(all, i as int, keep);
        }
        let f = wanted[i];
        if f.executable {
            let ghost before = r@.unref();
            r.push(f);
            assert(r@.unref() =~= before.push(*f));
        }
        i += 1;
    }
    assert(all.take(i as int) =~= all);
    r
}

/// Which files have to be made runnable, with their new permission bits.
///
/// The downloader sets the bits of what it writes, but a file that was already present (right
/// size, so never re-fetched) can still lack them — e.g. it was unpacked from a zip, restored from
/// a backup, or copied off a volume without permissions. There are none on Windows.
pub fn ensure_exec_bits(manifest: &Manifest, os: Os, modes: &Vec<Option<u32>>) -> (r: Vec<(String, u32)>)
    requires
        modes@.len() == executable_files(manifest.files@, os).len(),
    ensures
        os == Os::Windows ==> r@.len() == 0,
        os != Os::Windows ==> r@.map_values(|x: (String, u32)| (x.0@, x.1)) == mode_repairs(
            executable_files(manifest.files@, os),
            modes@,
        ),
{
    let mut r: Vec<(String, u32)> = Vec::new();
    if let Os::Windows = os {
        return r;
    }
    let files = executables(manifest, os);
    let ghost all = files@.unref();
    let mut i: usize = 0;
    assert(r@.map_values(|x: (String, u32)| (x.0@, x.1)) =~= Seq::empty());
    while i < files.len()
        invariant
            i <= files.len(),
            all == files@.unref(),
            modes@.len() == all.len(),
            r@.map_values(|x: (String, u32)| (x.0@, x.1)) == mode_repairs(all.take(i as int), modes@),
        decreases files.len() - i,
    {
        proof {
            assert(all.take(i + 1).drop_last() =~= all.take(i as int));
            assert(all.take(i + 1).last() == *files@[i as int]);
        }
        if let Some(mode) = modes[i] {
            if let Some(bits) = repaired_mode(mode) {
                let ghost before = r@.map_values(|x: (String, u32)| (x.0@, x.1));
                r.push((files[i].path.clone(), bits));
                assert(r@.map_values(|x: (String, u32)| (x.0@, x.1)) =~= before.push((files@[i as int].path@, bits)));
            }
        }
        i += 1;
    }
    assert(all.take(i as int) =~= all);
    r
}

/// Without a full verification a file is left alone exactly if it is there with the size that the
/// manifest gives and the ledger, where it has an entry for the path, has the manifest's hash. A
/// file that is missing, any other size, larger as well as smaller, and any other recorded hash put
/// it on the list; a hash of its content is not looked at.
pub proof fn law_fast_check_goes_by_size_and_ledger(
    entry: FileEntry,
    size: u64,
    hash: Option<String>,
    ledger: Map<Seq<char>, String>,
)
    ensures
        !must_download(entry, LocalFile::Present { size, hash }, ledger, false) <==> size == entry.size && (
        ledger.contains_key(entry.path@) ==> ledger[entry.path@]@ == entry.hash@),
        must_download(entry, LocalFile::Missing, ledger, false),
{
}

/// The fast check as it is carried out: what `needs_download` says is settled by what is on disk
/// and by the ledger's entry for the path alone.
pub proof fn law_needs_download_without_verification(entry: FileEntry, local: LocalFile, state: State, needed: bool)
    requires
        call_ensures(needs_download, (&entry, &local, &state, false), needed),
    ensures
        local is Missing ==> needed,
        local matches LocalFile::Present { size, .. } ==> {
            &&& size != entry.size ==> needed
            &&& size == entry.size && !state.files@.contains_key(entry.path@) ==> !needed
            &&& size == entry.size && state.files@.contains_key(entry.path@) ==> (needed <==> state.files@[entry.path@]@
                != entry.hash@)
        },
{
}

/// A full verification as it is carried out: a file is left alone exactly if it has the manifest's
/// size and its content the manifest's hash.
pub proof fn law_needs_download_with_verification(entry: FileEntry, local: LocalFile, state: State, needed: bool)
    requires
        call_ensures(needs_download, (&entry, &local, &state, true), needed),
    ensures
        local is Missing ==> needed,
        local matches LocalFile::Present { size, hash } ==> (!needed <==> size == entry.size && (hash matches Some(h)
            && h@ == entry.hash@)),
{
}

/// The plan of a fast check holds exactly the entries that are missing, have another size than on
/// disk, or have another hash than in the ledger.
pub proof fn law_fast_plan_is_exact(
    files: Seq<FileEntry>,
    local: Seq<LocalFile>,
    ledger: Map<Seq<char>, String>,
    entry: FileEntry,
)
    requires
        local.len() == files.len(),
    ensures
        missing_files(files, local, ledger, false).contains(entry) <==> exists|i: int|
            0 <= i < files.len() && #[trigger] files[i] == entry && !(local[i] matches LocalFile::Present { size, .. }
                && size == entry.size && (ledger.contains_key(entry.path@) ==> ledger[entry.path@]@ == entry.hash@)),
{
    law_plan_is_exact(files, local, ledger, false, entry);
    assert forall|i: int| 0 <= i < files.len() implies must_download(#[trigger] files[i], local[i], ledger, false) == !(
    local[i] matches LocalFile::Present { size, .. } && size == files[i].size && (ledger.contains_key(files[i].path@)
        ==> ledger[files[i].path@]@ == files[i].hash@)) by {
        match local[i] {
            LocalFile::Present { size, hash } => law_fast_check_goes_by_size_and_ledger(files[i], size, hash, ledger),
            LocalFile::Missing => {},
        }
    }
}

/// A release in two parts is planned part by part: each entry is judged by itself, none is dropped
/// or doubled, and the order is kept.
pub proof fn law_entries_are_judged_one_by_one(
    a: Seq<FileEntry>,
    b: Seq<FileEntry>,
    on_disk: (Seq<LocalFile>, Seq<LocalFile>),
    ledger: Map<Seq<char>, String>,
    verify: bool,
)
    requires
        on_disk.0.len() == a.len(),
        on_disk.1.len() == b.len(),
    ensures
        missing_files(a + b, on_disk.0 + on_disk.1, ledger, verify) == missing_files(a, on_disk.0, ledger, verify)
            + missing_files(b, on_disk.1, ledger, verify),
        a.len() == 1 ==> missing_files(a, on_disk.0, ledger, verify) == if must_download(
            a[0],
            on_disk.0[0],
            ledger,
            verify,
        ) {
            a
        } else {
            Seq::empty()
        },
    decreases b.len(),
{
    if a.len() == 1 {
        reveal_with_fuel(missing_files, 2);
        assert(missing_files(a, on_disk.0, ledger, verify) =~= if must_download(a[0], on_disk.0[0], ledger, verify) {
            a
        } else {
            Seq::empty()
        });
    }
    if b.len() == 0 {
        assert(a + b =~= a);
        assert(on_disk.0 + on_disk.1 =~= on_disk.0);
        assert(missing_files(a, on_disk.0, ledger, verify) + Seq::<FileEntry>::empty() =~= missing_files(
            a,
            on_disk.0,
            ledger,
            verify,
        ));
    } else {
        let front = b.drop_last();
        let shown = on_disk.1.drop_last();
        law_entries_are_judged_one_by_one(a, front, (on_disk.0, shown), ledger, verify);
        let whole = on_disk.0 + on_disk.1;
        assert((a + b).drop_last() =~= a + front);
        lemma_missing_looks_at_its_files(a + front, on_disk.0 + shown, whole, ledger, verify);
        lemma_missing_looks_at_its_files(front, shown, on_disk.1, ledger, verify);
        assert(missing_files(a + b, whole, ledger, verify) =~= missing_files(a, on_disk.0, ledger, verify)
            + missing_files(b, on_disk.1, ledger, verify));
    }
}

/// What is on disk for later entries does not matter for earlier ones.
proof fn lemma_missing_looks_at_its_files(
    files: Seq<FileEntry>,
    x: Seq<LocalFile>,
    y: Seq<LocalFile>,
    ledger: Map<Seq<char>, String>,
    verify: bool,
)
    requires
        files.len() <= x.len(),
        files.len() <= y.len(),
        forall|i: int| 0 <= i < files.len() ==> x[i] == y[i],
    ensures
        missing_files(files, x, ledger, verify) == missing_files(files, y, ledger, verify),
    decreases files.len(),
{
    if files.len() > 0 {
        lemma_missing_looks_at_its_files(files.drop_last(), x, y, ledger, verify);
    }
}

/// A file is hashed exactly where its hash can make a difference: where it is not, every hash leads
/// to the same decision; where it is, the manifest's hash and any other lead to different ones.
pub proof fn law_hash_is_taken_where_it_matters(
    entry: FileEntry,
    size: u64,
    verify: bool,
    wrong: String,
    ledger: Map<Seq<char>, String>,
    taken: bool,
)
    requires
        wrong@ != entry.hash@,
        call_ensures(needs_hash, (&entry, size, verify), taken),
    ensures
        taken <==> must_download(entry, LocalFile::Present { size, hash: Some(wrong) }, ledger, verify)
            != must_download(entry, LocalFile::Present { size, hash: Some(entry.hash) }, ledger, verify),
        taken <==> verify && size == entry.size,
{
}

/// The engine comes first, and so does every other file at the top of the install.
pub proof fn law_engine_comes_first(component: Seq<char>, path: Seq<char>)
    requires
        component == "engine"@ || !path.contains('/'),
    ensures
        tier(component, path) == 0,
{
}

/// Game data at the top of the game directory comes next, told by its extension: with one of four
/// a file goes in front of everything but the engine, with any other it goes last, with the packs.
pub proof fn law_game_data_comes_next(component: Seq<char>, dir: Seq<char>, stem: Seq<char>, ext: Seq<char>)
    requires
        component != "engine"@,
        !dir.contains('/'),
        !stem.contains('/'),
        !ext.contains('/'),
        !ext.contains('.'),
    ensures
        tier(component, dir.push('/') + (stem.push('.') + ext)) == if ext == "dat"@ || ext == "fgd"@ || ext == "cfg"@ || ext
            == "txt"@ {
            1nat
        } else {
            3nat
        },
{
    let rest = stem.push('.') + ext;
    text::law_split_at_the_first(dir, rest, '/');
    text::law_tail_is_behind_the_last(stem, ext, '.');
    if rest.contains('/') {
        let k = choose|k: int| 0 <= k < rest.len() && rest[k] == '/';
        if k < stem.len() {
            assert(stem.contains(stem[k]));
        } else if k > stem.len() {
            assert(ext.contains(ext[k - stem.len() - 1]));
        }
    }
}

/// The directories of a game directory come last, except for the one that holds its settings, under
/// its present name or its former one.
pub proof fn law_settings_come_before_content(component: Seq<char>, dir: Seq<char>, top: Seq<char>, tail: Seq<char>)
    requires
        component != "engine"@,
        !dir.contains('/'),
        !top.contains('/'),
    ensures
        tier(component, dir.push('/') + (top.push('/') + tail)) == if top == "cfg"@ || top == "data"@ {
            2nat
        } else {
            3nat
        },
{
    let rest = top.push('/') + tail;
    text::law_split_at_the_first(dir, rest, '/');
    text::law_split_at_the_first(top, tail, '/');
    lemma_starts_in_directory(top, tail, "cfg"@);
    lemma_starts_in_directory(top, tail, "data"@);
    reveal_strlit("cfg/");
    reveal_strlit("data/");
    reveal_strlit("cfg");
    reveal_strlit("data");
    assert("cfg/"@ =~= "cfg"@.push('/'));
    assert("data/"@ =~= "data"@.push('/'));
    assert(!"cfg"@.contains('/'));
    assert(!"data"@.contains('/'));
}

/// A path starts in a directory exactly if that is its first piece.
proof fn lemma_starts_in_directory(top: Seq<char>, tail: Seq<char>, name: Seq<char>)
    requires
        !top.contains('/'),
    ensures
        !name.contains('/') ==> (text::starts_with(top.push('/') + tail, name.push('/')) <==> top == name),
{
    let rest = top.push('/') + tail;
    if !name.contains('/') {
        text::law_beginning(rest, name.push('/'), tail);
        if text::starts_with(rest, name.push('/')) {
            text::law_split_at_the_first(name, rest.skip(name.len() as int + 1), '/');
            text::law_split_at_the_first(top, tail, '/');
        }
    }
}

/// The queue goes by tier, and within a tier by path, and it holds what was queued, each entry as
/// often as before.
pub proof fn law_queue_goes_by_tier_and_path(entries: Vec<FileEntry>, queue: Vec<FileEntry>, i: int, j: int)
    requires
        call_ensures(queue_order, (entries,), queue),
        0 <= i < j < queue@.len(),
    ensures
        tier(queue@[i].component@, queue@[i].path@) <= tier(queue@[j].component@, queue@[j].path@),
        tier(queue@[i].component@, queue@[i].path@) == tier(queue@[j].component@, queue@[j].path@) ==> text::ordered(
            queue@[i].path@,
            queue@[j].path@,
        ),
        queue@.to_multiset() == entries@.to_multiset(),
        queue@.len() == entries@.len(),
{
    assert(precedes(queue@[i], queue@[j]));
    vstd::seq_lib::to_multiset_len(queue@);
    vstd::seq_lib::to_multiset_len(entries@);
}

/// A plan accounts for every file of the platform: it is on the list or it is counted as up to date.
/// What is on the list is of the platform and is told apart by what must be downloaded; the bytes
/// are those of the list.
pub proof fn law_plan_accounts_for_every_file(
    release: Manifest,
    os: Os,
    local: Vec<LocalFile>,
    state: State,
    verify: bool,
    plan: Plan,
    i: int,
)
    requires
        call_ensures(build, (&release, os, &local, &state, verify), plan),
        local@.len() == manifest::wanted_files(release.files@, os).len(),
        0 <= i < local@.len(),
    ensures
        plan.to_download@.len() + plan.up_to_date == local@.len(),
        plan.bytes_to_download == manifest::total_size(plan.to_download@),
        must_download(manifest::wanted_files(release.files@, os)[i], local@[i], state.files@, verify)
            ==> plan.to_download@.contains(manifest::wanted_files(release.files@, os)[i]),
        forall|entry: FileEntry| #[trigger]
            plan.to_download@.contains(entry) ==> manifest::wanted_files(release.files@, os).contains(entry),
{
    broadcast use vstd::seq_lib::group_to_multiset_ensures;

    let files = manifest::wanted_files(release.files@, os);
    let found = missing_files(files, local@, state.files@, verify);
    law_plan_is_exact(files, local@, state.files@, verify, files[i]);
    if found.contains(files[i]) {
        assert(found.to_multiset().count(files[i]) > 0);
        assert(plan.to_download@.to_multiset().count(files[i]) > 0);
    }
    assert forall|entry: FileEntry| #[trigger] plan.to_download@.contains(entry) implies files.contains(entry) by {
        assert(plan.to_download@.to_multiset().count(entry) > 0);
        assert(found.contains(entry));
        law_plan_is_exact(files, local@, state.files@, verify, entry);
    }
}

/// The files that must be runnable are those of the platform that are marked so.
pub proof fn law_executables_are_exact(files: Seq<FileEntry>, os: Os, entry: FileEntry)
    ensures
        executable_files(files, os).contains(entry) <==> manifest::wanted_files(files, os).contains(entry)
            && entry.executable,
{
    let wanted = manifest::wanted_files(files, os);
    let keep = |f: FileEntry| f.executable;
    let kept = wanted.filter(keep);
    if kept.contains(entry) {
        wanted.lemma_filter_contains_rev(keep, entry);
        let k = choose|k: int| 0 <= k < kept.len() && kept[k] == entry;
        wanted.lemma_filter_pred(keep, k);
    }
    if wanted.contains(entry) && entry.executable {
        let i = choose|i: int| 0 <= i < wanted.len() && wanted[i] == entry;
        wanted.lemma_filter_contains(keep, i);
    }
}

/// Permission bits are repaired exactly where nobody may run the file. It then can be run and read by
/// everyone and written by its owner, and every other bit stays as it was.
pub proof fn law_repair_where_nobody_can_run(mode: u32, repaired: Option<u32>)
    requires
        call_ensures(repaired_mode, (mode,), repaired),
    ensures
        repaired is Some <==> mode & 0o111 == 0,
        repaired matches Some(bits) ==> bits & 0o755 == 0o755 && bits & !0o755u32 == mode & !0o755u32,
{
    assert((mode | 0o755) & 0o755 == 0o755u32) by (bit_vector);
    assert((mode | 0o755) & !0o755u32 == mode & !0o755u32) by (bit_vector);
}

/// A downloaded file can be run by everyone where it must be, with every other bit as it was; any
/// other file keeps its bits.
pub proof fn law_downloaded_file_is_runnable(entry: FileEntry, mode: u32, bits: u32)
    requires
        call_ensures(downloaded_mode, (&entry, mode), bits),
    ensures
        entry.executable ==> bits & 0o755 == 0o755 && bits & !0o755u32 == mode & !0o755u32,
        !entry.executable ==> bits == mode,
{
    assert((mode | 0o755) & 0o755 == 0o755u32) by (bit_vector);
    assert((mode | 0o755) & !0o755u32 == mode & !0o755u32) by (bit_vector);
}

/// Every file that must be runnable, is there and cannot be run by anybody is repaired, and no other
/// is touched.
pub proof fn law_repairs_are_exact(files: Seq<FileEntry>, modes: Seq<Option<u32>>, path: Seq<char>, bits: u32)
    requires
        modes.len() == files.len(),
    ensures
        mode_repairs(files, modes).contains((path, bits)) <==> exists|i: int|
            0 <= i < files.len() && #[trigger] files[i].path@ == path && (modes[i] matches Some(mode) && mode & 0o111 == 0
                && bits == mode | 0o755),
    decreases files.len(),
{
    if files.len() > 0 {
        let front = files.drop_last();
        let last = files.len() - 1;
        let known = modes.drop_last();
        lemma_repairs_look_at_their_files(front, known, modes);
        law_repairs_are_exact(front, known, path, bits);
        let before = mode_repairs(front, modes);
        let all = mode_repairs(files, modes);
        if all.contains((path, bits)) {
            let k = choose|k: int| 0 <= k < all.len() && all[k] == (path, bits);
            if k < before.len() {
                assert(before[k] == (path, bits));
                assert(before.contains((path, bits)));
                let i = choose|i: int|
                    0 <= i < front.len() && #[trigger] front[i].path@ == path && (known[i] matches Some(mode) && mode & 0o111
                        == 0 && bits == mode | 0o755);
                assert(files[i].path@ == path);
            } else {
                assert(files[last].path@ == path);
            }
        }
        if exists|i: int|
            0 <= i < files.len() && #[trigger] files[i].path@ == path && (modes[i] matches Some(mode) && mode & 0o111 == 0
                && bits == mode | 0o755) {
            let i = choose|i: int|
                0 <= i < files.len() && #[trigger] files[i].path@ == path && (modes[i] matches Some(mode) && mode & 0o111
                    == 0 && bits == mode | 0o755);
            if i < last {
                assert(front[i].path@ == path);
                assert(known[i] == modes[i]);
                let k = choose|k: int| 0 <= k < before.len() && before[k] == (path, bits);
                assert(all[k] == (path, bits));
            } else {
                assert(all[all.len() - 1] == (path, bits));
            }
        }
    }
}

proof fn lemma_repairs_look_at_their_files(files: Seq<FileEntry>, x: Seq<Option<u32>>, y: Seq<Option<u32>>)
    requires
        files.len() <= x.len(),
        files.len() <= y.len(),
        forall|i: int| 0 <= i < files.len() ==> x[i] == y[i],
    ensures
        mode_repairs(files, x) == mode_repairs(files, y),
    decreases files.len(),
{
    if files.len() > 0 {
        lemma_repairs_look_at_their_files(files.drop_last(), x, y);
    }
}

/// The priority of an entry is its tier.
pub proof fn law_priority_is_the_tier(entry: FileEntry, p: u8)
    requires
        call_ensures(priority, (&entry,), p),
    ensures
        p == tier(entry.component@, entry.path@),
        p <= 3,
        entry.component@ == "engine"@ ==> p == 0,
        !entry.path@.contains('/') ==> p == 0,
{
}

/// On Windows there are no execute bits to repair. Elsewhere every file of the platform that must be runnable, is there
/// and cannot be run by anybody gets its bits, and no other does.
pub proof fn law_execute_bits_are_repaired(
    release: Manifest,
    os: Os,
    modes: Vec<Option<u32>>,
    repairs: Vec<(String, u32)>,
    i: int,
)
    requires
        call_ensures(ensure_exec_bits, (&release, os, &modes), repairs),
        modes@.len() == executable_files(release.files@, os).len(),
        0 <= i < modes@.len(),
    ensures
        os is Windows ==> repairs@.len() == 0,
        !(os is Windows) ==> (modes@[i] matches Some(mode) ==> mode & 0o111 == 0 ==> exists|k: int|
            0 <= k < repairs@.len() && (#[trigger] repairs@[k]).0@ == executable_files(release.files@, os)[i].path@
                && repairs@[k].1 == mode | 0o755),
        forall|k: int|
            0 <= k < repairs@.len() ==> exists|j: int|
                0 <= j < modes@.len() && #[trigger] executable_files(release.files@, os)[j].path@ == (
                #[trigger] repairs@[k]).0@ && (modes@[j] matches Some(mode) && mode & 0o111 == 0 && repairs@[k].1 == mode
                    | 0o755),
{
    let files = executable_files(release.files@, os);
    let list = repairs@.map_values(|x: (String, u32)| (x.0@, x.1));
    if !(os is Windows) {
        if let Some(mode) = modes@[i] {
            if mode & 0o111 == 0 {
                let wanted = (files[i].path@, mode | 0o755);
                law_repairs_are_exact(files, modes@, wanted.0, wanted.1);
                assert(files[i].path@ == wanted.0);
                assert(list.contains(wanted));
                let k = choose|k: int| 0 <= k < list.len() && list[k] == wanted;
                assert(repairs@[k].0@ == files[i].path@);
            }
        }
        assert forall|k: int| 0 <= k < repairs@.len() implies exists|j: int|
            0 <= j < modes@.len() && #[trigger] files[j].path@ == (#[trigger] repairs@[k]).0@ && (modes@[j] matches Some(
                mode,
            ) && mode & 0o111 == 0 && repairs@[k].1 == mode | 0o755) by {
            assert(list[k] == (repairs@[k].0@, repairs@[k].1));
            assert(list.contains(list[k]));
            law_repairs_are_exact(files, modes@, repairs@[k].0@, repairs@[k].1);
        }
    }
}

/// The executables of a release are its files that are for the platform and are marked so, each of them.
pub proof fn law_executables_are_found(release: Manifest, os: Os, found: Vec<&FileEntry>, i: int)
    requires
        call_ensures(executables, (&release, os), found),
        0 <= i < release.files@.len(),
    ensures
        release.files@[i].executable && release.files@[i].is_wanted(os) ==> found@.unref().contains(release.files@[i]),
        forall|k: int| 0 <= k < found@.len() ==> (#[trigger] found@[k]).executable && found@[k].is_wanted(os),
{
    let wanted = manifest::wanted_files(release.files@, os);
    manifest::law_platform_slice_is_exact(release.files@, os, release.files@[i]);
    law_executables_are_exact(release.files@, os, release.files@[i]);
    assert(release.files@.contains(release.files@[i]));
    assert forall|k: int| 0 <= k < found@.len() implies (#[trigger] found@[k]).executable && found@[k].is_wanted(os) by {
        let entry = *found@[k];
        assert(found@.unref()[k] == entry);
        assert(found@.unref().contains(entry));
        law_executables_are_exact(release.files@, os, entry);
        manifest::law_platform_slice_is_exact(release.files@, os, entry);
    }
}

} // verus!
